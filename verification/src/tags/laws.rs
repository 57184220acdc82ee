//! What reading gives of files that are laid out as their formats say.
//!
//! The layouts stand here on their own: a file is put together out of its parts,
//! and reading it gives the parts back.

use vstd::prelude::*;
use crate::provider::netease::crypto;
use crate::tags;
use crate::tags::base64;
use crate::tags::flac;
use crate::tags::id3;
use crate::tags::image;
use crate::tags::numbers;
use crate::tags::vorbis;
use crate::text;

verus! {

// ------------------------------------------------------------------- numbers

/// The four bytes of a number, the highest first.
#[verifier::opaque]
pub open spec fn big_endian(n: nat) -> Seq<u8> {
    seq![
        (n / 0x100_0000 % 256) as u8,
        (n / 0x1_0000 % 256) as u8,
        (n / 0x100 % 256) as u8,
        (n % 256) as u8,
    ]
}

/// The four bytes of a number, the lowest first.
#[verifier::opaque]
pub open spec fn little_endian(n: nat) -> Seq<u8> {
    seq![
        (n % 256) as u8,
        (n / 0x100 % 256) as u8,
        (n / 0x1_0000 % 256) as u8,
        (n / 0x100_0000 % 256) as u8,
    ]
}

/// The number in four bytes of seven bits, the highest first.
#[verifier::opaque]
pub open spec fn seven_bit(n: nat) -> Seq<u8> {
    seq![
        (n / 0x20_0000 % 128) as u8,
        (n / 0x4000 % 128) as u8,
        (n / 0x80 % 128) as u8,
        (n % 128) as u8,
    ]
}

/// The number in three bytes, the highest first.
#[verifier::opaque]
pub open spec fn three_bytes(n: nat) -> Seq<u8> {
    seq![(n / 0x1_0000 % 256) as u8, (n / 0x100 % 256) as u8, (n % 256) as u8]
}

proof fn lemma_widths()
    ensures
        forall|n: nat| #[trigger] big_endian(n).len() == 4,
        forall|n: nat| #[trigger] little_endian(n).len() == 4,
        forall|n: nat| #[trigger] seven_bit(n).len() == 4,
        forall|n: nat| #[trigger] three_bytes(n).len() == 3,
{
    reveal(big_endian);
    reveal(little_endian);
    reveal(seven_bit);
    reveal(three_bytes);
}

/// A number that was written is read back.
pub proof fn law_numbers_read_back(n: nat, rest: Seq<u8>)
    ensures
        n < 0x1_0000_0000 ==> numbers::be32_of(big_endian(n) + rest) == n,
        n < 0x1_0000_0000 ==> numbers::le32_of(little_endian(n) + rest) == n,
        n < 0x1000_0000 ==> numbers::synchsafe_of(seven_bit(n) + rest) == n,
{
    if n < 0x1_0000_0000 {
        lemma_big_endian(n, rest);
        lemma_little_endian(n, rest);
    }
    if n < 0x1000_0000 {
        lemma_seven_bit(n, rest);
    }
}

proof fn lemma_big_endian(n: nat, rest: Seq<u8>)
    requires
        n < 0x1_0000_0000,
    ensures
        numbers::be32_of(big_endian(n) + rest) == n,
{
    reveal(big_endian);
    let w = big_endian(n);
    let b = w + rest;
    assert(b.len() >= 4);
    assert(b[0] == w[0] && b[1] == w[1] && b[2] == w[2] && b[3] == w[3]);
    lemma_eight_bits(n);
    assert(b[0] as nat == n / 0x100_0000 % 256);
    assert(b[1] as nat == n / 0x1_0000 % 256);
    assert(b[2] as nat == n / 0x100 % 256);
    assert(b[3] as nat == n % 256);
}

proof fn lemma_little_endian(n: nat, rest: Seq<u8>)
    requires
        n < 0x1_0000_0000,
    ensures
        numbers::le32_of(little_endian(n) + rest) == n,
{
    reveal(little_endian);
    let w = little_endian(n);
    let b = w + rest;
    assert(b.len() >= 4);
    assert(b[0] == w[0] && b[1] == w[1] && b[2] == w[2] && b[3] == w[3]);
    lemma_eight_bits(n);
    assert(b[3] as nat == n / 0x100_0000 % 256);
    assert(b[2] as nat == n / 0x1_0000 % 256);
    assert(b[1] as nat == n / 0x100 % 256);
    assert(b[0] as nat == n % 256);
}

proof fn lemma_seven_bit(n: nat, rest: Seq<u8>)
    requires
        n < 0x1000_0000,
    ensures
        numbers::synchsafe_of(seven_bit(n) + rest) == n,
{
    reveal(seven_bit);
    let w = seven_bit(n);
    let b = w + rest;
    assert(b.len() >= 4);
    assert(b[0] == w[0] && b[1] == w[1] && b[2] == w[2] && b[3] == w[3]);
    lemma_seven_bits(n);
    lemma_digit_below(n / 0x20_0000);
    lemma_digit_below(n / 0x4000);
    lemma_digit_below(n / 0x80);
    lemma_digit_below(n);
}

proof fn lemma_digit_below(d: nat)
    ensures
        ((d % 128) as u8) as nat % 128 == d % 128,
{
}

proof fn lemma_eight_bits(n: nat)
    requires
        n < 0x1_0000_0000,
    ensures
        n / 0x100_0000 % 256 * 0x100_0000 + n / 0x1_0000 % 256 * 0x1_0000 + n / 0x100 % 256 * 0x100
            + n % 256 == n,
{
    let a = n / 0x100;
    let b = a / 0x100;
    let c = b / 0x100;
    assert(n / 0x1_0000 == b);
    assert(n / 0x100_0000 == c);
    assert(n == a * 0x100 + n % 256);
    assert(a == b * 0x100 + a % 256);
    assert(b == c * 0x100 + b % 256);
    assert(c % 256 == c);
}

proof fn lemma_seven_bits(n: nat)
    requires
        n < 0x1000_0000,
    ensures
        n / 0x20_0000 % 128 * 0x20_0000 + n / 0x4000 % 128 * 0x4000 + n / 0x80 % 128 * 0x80 + n % 128
            == n,
{
    let a = n / 0x80;
    let b = a / 0x80;
    let c = b / 0x80;
    assert(n / 0x4000 == b);
    assert(n / 0x20_0000 == c);
    assert(n == a * 0x80 + n % 128);
    assert(a == b * 0x80 + a % 128);
    assert(b == c * 0x80 + b % 128);
    assert(c % 128 == c);
}

// ---------------------------------------------------------------- ID3 frames

/// A frame as a tag of version `v` holds it: identifier, length, two bytes of
/// flags, data.
pub open spec fn id3_frame(v: u8, id: Seq<u8>, flags: Seq<u8>, data: Seq<u8>) -> Seq<u8> {
    id + (if v < 4 {
        big_endian(data.len())
    } else {
        seven_bit(data.len())
    }) + flags + data
}

/// Frames one behind the other.
pub open spec fn id3_frames(v: u8, frames: Seq<(Seq<u8>, Seq<u8>)>) -> Seq<u8>
    decreases frames.len(),
{
    if frames.len() == 0 {
        Seq::empty()
    } else {
        id3_frame(v, frames[0].0, seq![0u8, 0u8], frames[0].1) + id3_frames(v, frames.skip(1))
    }
}

pub open spec fn zeros(n: nat) -> Seq<u8> {
    Seq::new(n, |i: int| 0u8)
}

/// Four characters, and data behind them.
pub open spec fn is_id3_frame(f: (Seq<u8>, Seq<u8>)) -> bool {
    f.0.len() == 4 && f.0[0] != 0 && f.1.len() > 0
}

pub open spec fn are_id3_frames(frames: Seq<(Seq<u8>, Seq<u8>)>) -> bool {
    forall|i: int| 0 <= i < frames.len() ==> is_id3_frame(#[trigger] frames[i])
}

/// An extended header: its whole length, then what it holds.
pub open spec fn id3_extended(v: u8, inside: Seq<u8>) -> Seq<u8> {
    (if v < 4 {
        big_endian(4 + inside.len())
    } else {
        seven_bit(4 + inside.len())
    }) + inside
}

/// What a tag holds behind its header.
pub open spec fn id3_body(
    v: u8,
    extended: Option<Seq<u8>>,
    frames: Seq<(Seq<u8>, Seq<u8>)>,
    padding: nat,
) -> Seq<u8> {
    (match extended {
        Some(inside) => id3_extended(v, inside),
        None => Seq::empty(),
    }) + id3_frames(v, frames) + zeros(padding)
}

/// A tag of version `v` and the file behind it.
pub open spec fn id3_file(
    v: u8,
    extended: Option<Seq<u8>>,
    frames: Seq<(Seq<u8>, Seq<u8>)>,
    padding: nat,
    audio: Seq<u8>,
) -> Seq<u8> {
    let body = id3_body(v, extended, frames, padding);
    seq![
        'I' as u8,
        'D' as u8,
        '3' as u8,
        v,
        0u8,
        if extended is Some {
            0x40u8
        } else {
            0u8
        },
    ] + seven_bit(body.len()) + body + audio
}

proof fn lemma_frames_from(
    bytes: Seq<u8>,
    v: u8,
    frames: Seq<(Seq<u8>, Seq<u8>)>,
    padding: nat,
    pos: int,
    end: int,
)
    requires
        are_id3_frames(frames),
        0 <= pos <= end <= bytes.len(),
        end - pos < 0x1000_0000,
        bytes.subrange(pos, end) == id3_frames(v, frames) + zeros(padding),
    ensures
        id3::frames_from(bytes, v >= 4, pos, end) == frames,
    decreases frames.len(),
{
    lemma_widths();
    let part = bytes.subrange(pos, end);
    if frames.len() == 0 {
        if pos + 10 <= end {
            assert(part[0] == bytes[pos]);
            assert(part[0] == zeros(padding)[0]);
        }
        assert(frames =~= Seq::empty());
    } else {
        let f = frames[0];
        assert(is_id3_frame(f));
        let own = id3_frame(v, f.0, seq![0u8, 0u8], f.1);
        let rest = id3_frames(v, frames.skip(1)) + zeros(padding);
        assert(part =~= own + rest);
        assert(own.len() == 10 + f.1.len());
        assert(part.len() == own.len() + rest.len());
        assert(part[0] == f.0[0]);
        assert(bytes[pos] == part[0]);
        let size_bytes = bytes.subrange(pos + 4, pos + 8);
        assert(size_bytes =~= part.subrange(4, 8));
        let written = if v < 4 {
            big_endian(f.1.len())
        } else {
            seven_bit(f.1.len())
        };
        assert(part.subrange(4, 8) =~= written);
        law_numbers_read_back(f.1.len(), Seq::empty());
        assert(written + Seq::<u8>::empty() =~= written);
        let start = pos + 10;
        let next = start + f.1.len();
        assert(bytes.subrange(pos, pos + 4) =~= f.0) by {
            assert(bytes.subrange(pos, pos + 4) =~= part.subrange(0, 4));
        }
        assert(bytes.subrange(start, next) =~= f.1) by {
            assert(bytes.subrange(start, next) =~= part.subrange(10, 10 + f.1.len() as int));
        }
        assert(bytes.subrange(next, end) =~= rest) by {
            assert(bytes.subrange(next, end) =~= part.subrange(own.len() as int, part.len() as int));
        }
        assert(are_id3_frames(frames.skip(1)));
        lemma_frames_from(bytes, v, frames.skip(1), padding, next, end);
        assert(seq![f] + frames.skip(1) =~= frames);
    }
}

/// The frames of a tag are walked as they were put in: each identifier with
/// exactly its data, in order, whatever stands behind the tag. The lengths are
/// plain big-endian numbers before version 4, and of seven bits a byte from then
/// on.
pub proof fn law_frames_are_walked(
    v: u8,
    extended: Option<Seq<u8>>,
    frames: Seq<(Seq<u8>, Seq<u8>)>,
    padding: nat,
    audio: Seq<u8>,
)
    requires
        are_id3_frames(frames),
        id3_body(v, extended, frames, padding).len() < 0x1000_0000,
    ensures
        id3::frames_of(id3_file(v, extended, frames, padding, audio)) == frames,
{
    let file = id3_file(v, extended, frames, padding, audio);
    lemma_id3_header(v, extended, frames, padding, audio);
    lemma_walked(file, v, frames, padding);
}

proof fn lemma_walked(file: Seq<u8>, v: u8, frames: Seq<(Seq<u8>, Seq<u8>)>, padding: nat)
    requires
        are_id3_frames(frames),
        10 <= id3::first_frame(file) <= id3::tag_end(file) <= file.len(),
        id3::tag_end(file) < 0x1000_0000 + 10,
        file.subrange(0, 3) == seq![0x49u8, 0x44u8, 0x33u8],
        file[3] == v,
        file.subrange(id3::first_frame(file), id3::tag_end(file)) == id3_frames(v, frames) + zeros(
            padding,
        ),
    ensures
        id3::frames_of(file) == frames,
{
    lemma_frames_from(file, v, frames, padding, id3::first_frame(file), id3::tag_end(file));
}

proof fn lemma_id3_header(
    v: u8,
    extended: Option<Seq<u8>>,
    frames: Seq<(Seq<u8>, Seq<u8>)>,
    padding: nat,
    audio: Seq<u8>,
)
    requires
        id3_body(v, extended, frames, padding).len() < 0x1000_0000,
    ensures
        ({
            let file = id3_file(v, extended, frames, padding, audio);
            let body = id3_body(v, extended, frames, padding);
            &&& file.len() >= 10 + body.len()
            &&& file.subrange(0, 3) == seq![0x49u8, 0x44u8, 0x33u8]
            &&& file[3] == v
            &&& file.subrange(id3::first_frame(file), id3::tag_end(file)) == id3_frames(v, frames)
                + zeros(padding)
            &&& id3::tag_end(file) == 10 + body.len()
            &&& id3::first_frame(file) == (match extended {
                Some(inside) => 14 + inside.len() as int,
                None => 10,
            })
        }),
{
    lemma_widths();
    let body = id3_body(v, extended, frames, padding);
    let file = id3_file(v, extended, frames, padding, audio);
    let n = body.len();
    assert(file.subrange(0, 3) =~= seq![0x49u8, 0x44u8, 0x33u8]);
    assert(file[3] == v);
    assert(file.subrange(6, 10) =~= seven_bit(n));
    law_numbers_read_back(n, Seq::empty());
    assert(seven_bit(n) + Seq::<u8>::empty() =~= seven_bit(n));
    assert(id3::tag_end(file) == 10 + n);
    assert(file.subrange(10, 10 + n as int) =~= body);
    match extended {
        None => {
            assert(file[5] == 0u8);
            assert(body =~= id3_frames(v, frames) + zeros(padding));
        },
        Some(inside) => {
            let written = if v < 4 {
                big_endian(4 + inside.len())
            } else {
                seven_bit(4 + inside.len())
            };
            let k = 4 + inside.len() as int;
            assert(file[5] == 0x40u8);
            assert(body.len() >= k);
            assert(body.subrange(0, 4) =~= written);
            assert(file.subrange(10, 14) =~= file.subrange(10, 10 + n as int).subrange(0, 4));
            law_numbers_read_back(4 + inside.len(), Seq::empty());
            assert(written + Seq::<u8>::empty() =~= written);
            assert(id3::first_frame(file) == 10 + k);
            assert(body.subrange(k, n as int) =~= id3_frames(v, frames) + zeros(padding));
            assert(file.subrange(10 + k, 10 + n as int) =~= file.subrange(
                10,
                10 + n as int,
            ).subrange(k, n as int));
        },
    }
}

// -------------------------------------------------------------------- zeros

pub open spec fn without_zero(p: Seq<u8>) -> bool {
    forall|i: int| 0 <= i < p.len() ==> #[trigger] p[i] != 0
}

/// The first zero byte from a place on is found, and only where there is one.
pub proof fn law_zero_is_found(p: Seq<u8>, from: int)
    requires
        0 <= from,
    ensures
        match numbers::zero_from(p, from) {
            Some(k) => from <= k < p.len() && p[k] == 0 && forall|j: int|
                from <= j < k ==> #[trigger] p[j] != 0,
            None => forall|j: int| from <= j < p.len() ==> #[trigger] p[j] != 0,
        },
    decreases p.len() - from,
{
    if from < p.len() && p[from] != 0 {
        law_zero_is_found(p, from + 1);
    }
}

/// The first zero pair at an even distance from a place is found, and only where
/// there is one.
pub proof fn law_zero_pair_is_found(p: Seq<u8>, from: int)
    requires
        0 <= from,
    ensures
        match numbers::zero_pair_from(p, from) {
            Some(k) => {
                &&& from <= k && k + 1 < p.len() && (k - from) % 2 == 0
                &&& p[k] == 0 && p[k + 1] == 0
                &&& forall|j: int|
                    from <= j < k && (j - from) % 2 == 0 ==> !(#[trigger] p[j] == 0 && p[j + 1] == 0)
            },
            None => forall|j: int|
                from <= j && j + 1 < p.len() && (j - from) % 2 == 0 ==> !(#[trigger] p[j] == 0 && p[j
                    + 1] == 0),
        },
    decreases p.len() - from,
{
    if from + 1 < p.len() && !(p[from] == 0 && p[from + 1] == 0) {
        law_zero_pair_is_found(p, from + 2);
    }
}

proof fn lemma_zero_behind(own: Seq<u8>, rest: Seq<u8>)
    requires
        without_zero(own),
    ensures
        numbers::zero_from(own + seq![0u8] + rest, 0) == Some(own.len() as int),
{
    let p = own + seq![0u8] + rest;
    law_zero_is_found(p, 0);
    assert(p[own.len() as int] == 0);
    assert forall|i: int| 0 <= i < own.len() implies p[i] != 0 by {
        assert(p[i] == own[i]);
    }
}

/// Characters in two bytes each, no zero among them.
pub open spec fn is_wide(t: Seq<char>) -> bool {
    forall|i: int| 0 <= i < t.len() ==> 0 < (#[trigger] t[i]) as u32 <= 0xffff
}

/// A text in two bytes a character.
pub open spec fn two_bytes_each(t: Seq<char>, little: bool) -> Seq<u8> {
    Seq::new(
        2 * t.len(),
        |i: int|
            if (i % 2 == 0) == little {
                (t[i / 2] as u32 % 256) as u8
            } else {
                (t[i / 2] as u32 / 256) as u8
            },
    )
}

/// The mark in front of such a text that tells the order of the bytes.
pub open spec fn order_mark(little: bool) -> Seq<u8> {
    if little {
        seq![0xffu8, 0xfeu8]
    } else {
        seq![0xfeu8, 0xffu8]
    }
}

proof fn lemma_units(before: Seq<u8>, t: Seq<char>, little: bool, tail: Seq<u8>, k: nat)
    requires
        is_wide(t),
        k <= t.len(),
        tail.len() < 2 || (tail[0] == 0 && tail[1] == 0),
    ensures
        id3::units_text(
            before + two_bytes_each(t, little) + tail,
            little,
            before.len() + 2 * k as int,
        ) == t.skip(k as int),
    decreases t.len() - k,
{
    let w = two_bytes_each(t, little);
    let all = before + w + tail;
    let i = before.len() + 2 * k as int;
    if k == t.len() {
        if i + 1 < all.len() {
            assert(all[i] == tail[0]);
            assert(all[i + 1] == tail[1]);
        }
        assert(t.skip(k as int) =~= Seq::empty());
    } else {
        let c = t[k as int];
        assert(all[i] == w[2 * k as int]);
        assert(all[i + 1] == w[2 * k as int + 1]);
        assert((2 * k as int) % 2 == 0 && (2 * k as int) / 2 == k);
        assert((2 * k as int + 1) % 2 == 1 && (2 * k as int + 1) / 2 == k);
        let u = id3::unit_at(all, little, i);
        assert(0 < c as u32 <= 0xffff);
        assert(u == c as u32);
        vstd::utf8::char_is_scalar(c);
        vstd::utf8::char_u32_cast(c, u);
        lemma_units(before, t, little, tail, k + 1);
        assert(seq![c] + t.skip(k as int + 1) =~= t.skip(k as int));
    }
}

/// Text in two bytes a character behind its mark is read back, in either order of
/// the bytes, up to its end or its zero.
pub proof fn law_wide_text_reads_back(t: Seq<char>, little: bool, rest: Seq<u8>)
    requires
        is_wide(t),
    ensures
        id3::utf16_text(order_mark(little) + two_bytes_each(t, little)) == t,
        id3::utf16_text(order_mark(little) + two_bytes_each(t, little) + (seq![0u8, 0u8] + rest))
            == t,
{
    let mark = order_mark(little);
    let own = mark + two_bytes_each(t, little);
    lemma_units(mark, t, little, Seq::empty(), 0);
    assert(own + Seq::<u8>::empty() =~= own);
    lemma_units(mark, t, little, seq![0u8, 0u8] + rest, 0);
    assert(t.skip(0) =~= t);
    assert(own[0] == mark[0] && own[1] == mark[1]);
    let long = own + (seq![0u8, 0u8] + rest);
    assert(long[0] == mark[0] && long[1] == mark[1]);
}

/// A text frame reads as the text that was put in: bytes of UTF-8 behind 0 or 3,
/// two bytes a character behind 1 or 2.
pub proof fn law_text_frame_reads_back(t: Seq<char>, little: bool)
    requires
        text::has_inked_ends(t),
    ensures
        text::lossy_text(vstd::utf8::encode_utf8(t)) == t ==> id3::frame_text(
            seq![0u8] + vstd::utf8::encode_utf8(t),
        ) == t,
        text::lossy_text(vstd::utf8::encode_utf8(t)) == t ==> id3::frame_text(
            seq![3u8] + vstd::utf8::encode_utf8(t),
        ) == t,
        is_wide(t) ==> id3::frame_text(
            seq![1u8] + (order_mark(little) + two_bytes_each(t, little)),
        ) == t,
        is_wide(t) ==> id3::frame_text(
            seq![2u8] + (order_mark(little) + two_bytes_each(t, little)),
        ) == t,
{
    let e = vstd::utf8::encode_utf8(t);
    assert((seq![0u8] + e).skip(1) =~= e);
    assert((seq![3u8] + e).skip(1) =~= e);
    text::law_clean_text_stays(t, '\0');
    if is_wide(t) {
        let w = order_mark(little) + two_bytes_each(t, little);
        assert((seq![1u8] + w).skip(1) =~= w);
        assert((seq![2u8] + w).skip(1) =~= w);
        law_wide_text_reads_back(t, little, Seq::empty());
        text::law_trimmed_is_the_text(Seq::empty(), t, Seq::empty());
    }
}

/// A title, an artist or an album in a tag is told as it was put in: it is the
/// text of the first frame with its identifier.
pub proof fn law_tag_text_reads_back(
    v: u8,
    frames: Seq<(Seq<u8>, Seq<u8>)>,
    padding: nat,
    audio: Seq<u8>,
    j: int,
    want: Seq<u8>,
    key: Seq<char>,
    t: Seq<char>,
    little: bool,
)
    requires
        are_id3_frames(frames),
        id3_body(v, None, frames, padding).len() < 0x1000_0000,
        0 <= j < frames.len(),
        frames[j].0 == want,
        forall|i: int| 0 <= i < j ==> (#[trigger] frames[i]).0 != want,
        text::has_inked_ends(t),
        is_wide(t),
        frames[j].1 == seq![1u8] + (order_mark(little) + two_bytes_each(t, little)),
    ensures
        tags::tag_text(id3_file(v, None, frames, padding, audio), want, key) == t,
{
    law_frames_are_walked(v, None, frames, padding, audio);
    law_text_frame_reads_back(t, little);
    lemma_first_text(frames, want, j);
}

proof fn lemma_first_text(frames: Seq<(Seq<u8>, Seq<u8>)>, want: Seq<u8>, j: int)
    requires
        0 <= j < frames.len(),
        id3::is_first(frames, want, j),
        id3::frame_text(frames[j].1).len() > 0,
    ensures
        id3::first_text(frames, want) == id3::frame_text(frames[j].1),
    decreases j,
{
    if j > 0 {
        assert(frames[0].0 != want);
        assert forall|i: int| 0 <= i < j - 1 implies (#[trigger] frames.skip(1)[i]).0 != want by {
            assert(frames.skip(1)[i] == frames[i + 1]);
        }
        lemma_first_text(frames.skip(1), want, j - 1);
    }
}

/// Lyrics are told as they were put in, behind their language and description.
pub proof fn law_lyrics_read_back(
    language: Seq<u8>,
    description: Seq<u8>,
    t: Seq<char>,
    little: bool,
    wide_description: Seq<char>,
)
    requires
        language.len() == 3,
        without_zero(description),
        text::has_inked_ends(t),
        is_wide(t),
        is_wide(wide_description),
        without_zero(vstd::utf8::encode_utf8(t)),
    ensures
        text::lossy_text(vstd::utf8::encode_utf8(t)) == t ==> id3::uslt_text(
            seq![0u8] + language + description + seq![0u8] + vstd::utf8::encode_utf8(t),
        ) == t,
        text::lossy_text(vstd::utf8::encode_utf8(t)) == t ==> id3::uslt_text(
            seq![3u8] + language + description + seq![0u8] + vstd::utf8::encode_utf8(t),
        ) == t,
        id3::uslt_text(
            seq![1u8] + language + two_bytes_each(wide_description, little) + seq![0u8, 0u8] + (
            order_mark(little) + two_bytes_each(t, little)),
        ) == t,
{
    let e = vstd::utf8::encode_utf8(t);
    text::law_trimmed_is_the_text(Seq::empty(), t, Seq::empty());
    lemma_narrow_string(0, seq![0u8] + language, description, e);
    lemma_narrow_string(3, seq![3u8] + language, description, e);
    let w = order_mark(little) + two_bytes_each(t, little);
    lemma_wide_string(seq![1u8] + language, two_bytes_each(wide_description, little), w);
    assert forall|i: int|
        0 <= i && i + 1 < two_bytes_each(wide_description, little).len() && i % 2 == 0 implies !(
    #[trigger] two_bytes_each(wide_description, little)[i] == 0 && two_bytes_each(
        wide_description,
        little,
    )[i + 1] == 0) by {
        let c = wide_description[i / 2];
        assert(0 < c as u32 <= 0xffff);
        assert((i + 1) / 2 == i / 2 && (i + 1) % 2 == 1);
    }
    law_wide_text_reads_back(t, little, Seq::empty());
    if e.len() == 0 {
        vstd::utf8::encode_utf8_decode_utf8(t);
    }
}

proof fn lemma_narrow_string(enc: u8, head: Seq<u8>, description: Seq<u8>, own: Seq<u8>)
    requires
        enc == 0 || enc == 3,
        head.len() == 4,
        head[0] == enc,
        without_zero(description),
        without_zero(own),
    ensures
        ({
            let data = head + description + seq![0u8] + own;
            let at = id3::string_end(data, enc, 4);
            &&& at == 5 + description.len()
            &&& data.len() >= 5
            &&& data[0] == enc
            &&& own.len() > 0 ==> id3::string_at(data, enc, at) == text::trimmed(
                text::lossy_text(own),
            )
        }),
{
    let data = head + description + seq![0u8] + own;
    let k = 4 + description.len() as int;
    law_zero_is_found(data, 4);
    assert(data[k] == 0);
    assert forall|i: int| 4 <= i < k implies data[i] != 0 by {
        assert(data[i] == description[i - 4]);
    }
    let txt = data.skip(k + 1);
    assert(txt =~= own);
    law_zero_is_found(txt, 0);
    assert(id3::string_end(data, enc, 4) == k + 1);
}

proof fn lemma_wide_string(head: Seq<u8>, description: Seq<u8>, own: Seq<u8>)
    requires
        head.len() == 4,
        head[0] == 1,
        description.len() % 2 == 0,
        own.len() > 0,
        forall|i: int|
            0 <= i && i + 1 < description.len() && i % 2 == 0 ==> !(#[trigger] description[i] == 0
                && description[i + 1] == 0),
    ensures
        id3::uslt_text(head + description + seq![0u8, 0u8] + own) == text::trimmed(
            id3::utf16_text(own),
        ),
{
    let data = head + description + seq![0u8, 0u8] + own;
    let k = 4 + description.len() as int;
    law_zero_pair_is_found(data, 4);
    assert(data[k] == 0 && data[k + 1] == 0);
    assert((k - 4) % 2 == 0);
    assert forall|i: int| 4 <= i < k && (i - 4) % 2 == 0 implies !(#[trigger] data[i] == 0 && data[i
        + 1] == 0) by {
        assert(data[i] == description[i - 4]);
        assert(data[i + 1] == description[i - 4 + 1]);
    }
    assert(data.skip(k + 2) =~= own);
    assert(id3::string_end(data, 1, 4) == k + 2);
}

// ------------------------------------------------------------------ pictures

/// A whole JPEG or PNG file, by its first bytes, of at most a mebibyte.
pub open spec fn is_picture(p: Seq<u8>) -> bool {
    &&& p.len() <= 1048576
    &&& (p.len() >= 4 && p[0] == 0xff && p[1] == 0xd8) || (p.len() >= 8 && p[0] == 0x89 && p[1]
        == 'P' as u8 && p[2] == 'N' as u8 && p[3] == 'G' as u8)
}

/// A picture is found behind bytes that cannot begin one, and found whole.
pub proof fn law_picture_is_found(before: Seq<u8>, p: Seq<u8>)
    requires
        is_picture(p),
        forall|i: int| 0 <= i < before.len() ==> #[trigger] before[i] != 0xff && before[i] != 0x89,
    ensures
        image::picture_in(before + p) == Some(p),
        image::picture_or_all(p) == p,
{
    lemma_picture_from(before, p, 0);
    lemma_picture_from(Seq::empty(), p, 0);
    assert(Seq::<u8>::empty() + p =~= p);
}

proof fn lemma_picture_from(before: Seq<u8>, p: Seq<u8>, i: int)
    requires
        is_picture(p),
        forall|i: int| 0 <= i < before.len() ==> #[trigger] before[i] != 0xff && before[i] != 0x89,
        0 <= i <= before.len(),
    ensures
        image::picture_from(before + p, i) == Some(p),
    decreases before.len() - i,
{
    let all = before + p;
    if i < before.len() {
        assert(all[i] == before[i]);
        lemma_picture_from(before, p, i + 1);
    } else {
        assert(all[i] == p[0] && all[i + 1] == p[1] && all[i + 2] == p[2] && all[i + 3] == p[3]);
        assert(all.skip(i) =~= p);
    }
}

/// Bytes without the first byte of a signature hold no picture.
pub proof fn law_no_picture_without_signature(p: Seq<u8>)
    requires
        forall|i: int| 0 <= i < p.len() ==> #[trigger] p[i] != 0xff && p[i] != 0x89,
    ensures
        image::picture_in(p) is None,
        image::picture_or_all(p) == p,
{
    lemma_no_picture_from(p, 0);
}

proof fn lemma_no_picture_from(p: Seq<u8>, i: int)
    requires
        0 <= i,
        forall|i: int| 0 <= i < p.len() ==> #[trigger] p[i] != 0xff && p[i] != 0x89,
    ensures
        image::picture_from(p, i) is None,
    decreases p.len() - i,
{
    if i + 3 < p.len() {
        assert(p[i] != 0xff);
        lemma_no_picture_from(p, i + 1);
    }
}

/// The data of a picture frame: the encoding, the type name, the kind, the
/// description, the picture.
pub open spec fn apic_data(
    enc: u8,
    mime: Seq<u8>,
    kind: u8,
    description: Seq<u8>,
    picture: Seq<u8>,
) -> Seq<u8> {
    seq![enc] + mime + seq![0u8, kind] + description + (if enc == 1 || enc == 2 {
        seq![0u8, 0u8]
    } else {
        seq![0u8]
    }) + picture
}

/// A description as a frame with that encoding may hold it.
pub open spec fn is_description(enc: u8, d: Seq<u8>) -> bool {
    if enc == 1 || enc == 2 {
        d.len() % 2 == 0 && forall|i: int|
            0 <= i && i + 1 < d.len() && i % 2 == 0 ==> !(#[trigger] d[i] == 0 && d[i + 1] == 0)
    } else {
        without_zero(d)
    }
}

/// What ends a description with that encoding.
pub open spec fn description_end(enc: u8) -> Seq<u8> {
    if enc == 1 || enc == 2 {
        seq![0u8, 0u8]
    } else {
        seq![0u8]
    }
}

proof fn lemma_behind_description(enc: u8, description: Seq<u8>, picture: Seq<u8>)
    requires
        is_description(enc, description),
    ensures
        ({
            let d = description + description_end(enc) + picture;
            let k = description.len() as int;
            if enc == 1 || enc == 2 {
                numbers::zero_pair_from(d, 0) == Some(k) && d.skip(k + 2) == picture
            } else {
                numbers::zero_from(d, 0) == Some(k) && d.skip(k + 1) == picture
            }
        }),
{
    let d = description + description_end(enc) + picture;
    let k = description.len() as int;
    if enc == 1 || enc == 2 {
        law_zero_pair_is_found(d, 0);
        assert(d[k] == 0 && d[k + 1] == 0);
        assert forall|i: int| 0 <= i < k && (i - 0) % 2 == 0 implies !(#[trigger] d[i] == 0 && d[i + 1]
            == 0) by {
            assert(d[i] == description[i]);
            assert(d[i + 1] == description[i + 1]);
        }
        assert(numbers::zero_pair_from(d, 0) == Some(k));
        assert(d.skip(k + 2) =~= picture);
    } else {
        lemma_zero_behind(description, picture);
        assert(d.skip(k + 1) =~= picture);
    }
}

proof fn lemma_apic_rest(
    enc: u8,
    mime: Seq<u8>,
    kind: u8,
    description: Seq<u8>,
    picture: Seq<u8>,
)
    requires
        without_zero(mime),
        is_description(enc, description),
    ensures
        id3::apic_rest(apic_data(enc, mime, kind, description, picture)) == Some(picture),
{
    let data = apic_data(enc, mime, kind, description, picture);
    let d = description + description_end(enc) + picture;
    let q = seq![kind] + d;
    let p = mime + seq![0u8] + q;
    assert(data =~= seq![enc] + p);
    assert(data.skip(1) =~= p);
    lemma_zero_behind(mime, q);
    assert(p.skip(mime.len() as int + 1) =~= q);
    assert(q.skip(1) =~= d);
    assert(data[0] == enc);
    lemma_behind_description(enc, description, picture);
}

/// The picture in a picture frame is taken whole, whatever its type name, kind
/// and description.
#[verifier::spinoff_prover]
pub proof fn law_apic_gives_its_picture(
    enc: u8,
    mime: Seq<u8>,
    kind: u8,
    description: Seq<u8>,
    picture: Seq<u8>,
)
    requires
        without_zero(mime),
        is_description(enc, description),
        is_picture(picture),
    ensures
        id3::apic_picture(apic_data(enc, mime, kind, description, picture)) == Some(picture),
{
    lemma_apic_rest(enc, mime, kind, description, picture);
    law_picture_is_found(Seq::empty(), picture);
    assert(Seq::<u8>::empty() + picture =~= picture);
}

pub open spec fn apic() -> Seq<u8> {
    seq!['A' as u8, 'P' as u8, 'I' as u8, 'C' as u8]
}

/// The cover of a file with a tag is the picture of its picture frame, whole.
pub proof fn law_id3_cover_reads_back(
    v: u8,
    extended: Option<Seq<u8>>,
    frames: Seq<(Seq<u8>, Seq<u8>)>,
    padding: nat,
    audio: Seq<u8>,
    j: int,
    enc: u8,
    mime: Seq<u8>,
    kind: u8,
    description: Seq<u8>,
    picture: Seq<u8>,
)
    requires
        are_id3_frames(frames),
        id3_body(v, extended, frames, padding).len() < 0x1000_0000,
        0 <= j < frames.len(),
        frames[j].0 == apic(),
        forall|i: int| 0 <= i < j ==> (#[trigger] frames[i]).0 != apic(),
        without_zero(mime),
        is_description(enc, description),
        is_picture(picture),
        frames[j].1 == apic_data(enc, mime, kind, description, picture),
    ensures
        tags::cover_of(id3_file(v, extended, frames, padding, audio)) == Some(picture),
{
    law_frames_are_walked(v, extended, frames, padding, audio);
    law_apic_gives_its_picture(enc, mime, kind, description, picture);
    assert(apic() =~= id3::APIC@);
    lemma_first_picture(frames, j);
    law_picture_is_found(Seq::empty(), picture);
}

proof fn lemma_first_picture(frames: Seq<(Seq<u8>, Seq<u8>)>, j: int)
    requires
        0 <= j < frames.len(),
        id3::is_first(frames, id3::APIC@, j),
        id3::apic_picture(frames[j].1) is Some,
    ensures
        id3::first_picture(frames) == id3::apic_picture(frames[j].1),
    decreases j,
{
    if j > 0 {
        assert(frames[0].0 != id3::APIC@);
        assert forall|i: int| 0 <= i < j - 1 implies (#[trigger] frames.skip(1)[i]).0
            != id3::APIC@ by {
            assert(frames.skip(1)[i] == frames[i + 1]);
        }
        lemma_first_picture(frames.skip(1), j - 1);
    }
}

// ---------------------------------------------------------------------- FLAC

/// A metadata block: whether it is the last, its kind, its length, its content.
pub open spec fn flac_block(last: bool, kind: u8, content: Seq<u8>) -> Seq<u8> {
    seq![
        (kind + (if last {
            128int
        } else {
            0
        })) as u8,
    ] + three_bytes(content.len()) + content
}

/// A block by its kind and content.
pub open spec fn is_flac_block(b: (u8, Seq<u8>)) -> bool {
    b.0 < 127 && b.1.len() < 0x100_0000
}

/// Blocks one behind the other, none of them the last.
pub open spec fn flac_blocks(blocks: Seq<(u8, Seq<u8>)>) -> Seq<u8>
    decreases blocks.len(),
{
    if blocks.len() == 0 {
        Seq::empty()
    } else {
        flac_block(false, blocks[0].0, blocks[0].1) + flac_blocks(blocks.skip(1))
    }
}

/// A FLAC file: its mark, blocks, one more block, and what stands behind.
pub open spec fn flac_file(
    blocks: Seq<(u8, Seq<u8>)>,
    last: bool,
    kind: u8,
    content: Seq<u8>,
    rest: Seq<u8>,
) -> Seq<u8> {
    seq!['f' as u8, 'L' as u8, 'a' as u8, 'C' as u8] + flac_blocks(blocks) + flac_block(
        last,
        kind,
        content,
    ) + rest
}

/// The content of a picture block: the kind of picture, the type name and the
/// description behind their lengths, four measures, the picture behind its length.
pub open spec fn picture_block(
    kind: nat,
    mime: Seq<u8>,
    description: Seq<u8>,
    measures: Seq<u8>,
    picture: Seq<u8>,
) -> Seq<u8> {
    big_endian(kind) + big_endian(mime.len()) + mime + big_endian(description.len()) + description
        + measures + big_endian(picture.len()) + picture
}

/// The picture of a picture block is taken whole.
pub proof fn law_picture_block_reads_back(
    kind: nat,
    mime: Seq<u8>,
    description: Seq<u8>,
    measures: Seq<u8>,
    picture: Seq<u8>,
)
    requires
        mime.len() < 0x1_0000_0000,
        description.len() < 0x1_0000_0000,
        measures.len() == 16,
        0 < picture.len() <= 1048576,
    ensures
        flac::block_picture(picture_block(kind, mime, description, measures, picture)) == Some(
            picture,
        ),
{
    lemma_widths();
    let block = picture_block(kind, mime, description, measures, picture);
    let m = mime.len() as int;
    let d = description.len() as int;
    let t3 = big_endian(picture.len()) + picture;
    let t2 = big_endian(description.len()) + (description + measures + t3);
    let t1 = big_endian(mime.len()) + (mime + t2);
    assert(block =~= big_endian(kind) + t1);
    assert(block.skip(4) =~= t1);
    lemma_big_endian(mime.len(), mime + t2);
    assert(block.skip(8 + m) =~= t2);
    lemma_big_endian(description.len(), description + measures + t3);
    assert(block.skip(8 + m + 4 + d + 16) =~= t3);
    lemma_big_endian(picture.len(), picture);
    let start = 8 + m + 4 + d + 16 + 4;
    assert(block.subrange(start, start + picture.len()) =~= picture);
}

proof fn lemma_three_bytes(n: nat)
    requires
        n < 0x100_0000,
    ensures
        three_bytes(n)[0] as int * 0x1_0000 + three_bytes(n)[1] as int * 0x100 + three_bytes(
            n,
        )[2] as int == n,
{
    reveal(three_bytes);
    lemma_eight_bits(n);
    assert(n / 0x100_0000 == 0);
}

/// The header of a block that stands in a file.
proof fn lemma_block_header(
    bytes: Seq<u8>,
    i: int,
    last: bool,
    kind: u8,
    content: Seq<u8>,
    rest: Seq<u8>,
)
    requires
        0 <= i <= bytes.len(),
        kind < 127,
        content.len() < 0x100_0000,
        bytes.skip(i) == flac_block(last, kind, content) + rest,
    ensures
        i + 4 + content.len() <= bytes.len(),
        bytes[i + 1] as int * 0x1_0000 + bytes[i + 2] as int * 0x100 + bytes[i + 3] as int
            == content.len(),
        bytes[i] as int % 128 == kind,
        bytes[i] >= 128 <==> last,
        bytes.subrange(i + 4, i + 4 + content.len()) == content,
        bytes.skip(i + 4 + content.len()) == rest,
{
    lemma_widths();
    let own = flac_block(last, kind, content);
    let tail = bytes.skip(i);
    let n = content.len() as int;
    assert(own.len() == 4 + n);
    assert(tail.len() == own.len() + rest.len());
    assert(tail[0] == own[0] && tail[1] == own[1] && tail[2] == own[2] && tail[3] == own[3]);
    assert(bytes[i] == tail[0] && bytes[i + 1] == tail[1] && bytes[i + 2] == tail[2] && bytes[i + 3]
        == tail[3]);
    assert(own[1] == three_bytes(content.len())[0] && own[2] == three_bytes(content.len())[1]
        && own[3] == three_bytes(content.len())[2]);
    lemma_three_bytes(content.len());
    assert(bytes.subrange(i + 4, i + 4 + n) =~= tail.subrange(4, 4 + n));
    assert(tail.subrange(4, 4 + n) =~= content);
    assert(bytes.skip(i + 4 + n) =~= tail.skip(4 + n));
    assert(tail.skip(4 + n) =~= rest);
}

proof fn lemma_flac_picture_from(
    bytes: Seq<u8>,
    i: int,
    blocks: Seq<(u8, Seq<u8>)>,
    last: bool,
    content: Seq<u8>,
    rest: Seq<u8>,
)
    requires
        0 <= i <= bytes.len(),
        forall|k: int|
            0 <= k < blocks.len() ==> is_flac_block(#[trigger] blocks[k]) && blocks[k].0 != 6,
        content.len() < 0x100_0000,
        flac::block_picture(content) is Some,
        bytes.skip(i) == flac_blocks(blocks) + flac_block(last, 6, content) + rest,
    ensures
        flac::picture_from(bytes, i) == Some(
            image::picture_or_all(flac::block_picture(content)->0),
        ),
    decreases blocks.len(),
{
    if blocks.len() == 0 {
        assert(bytes.skip(i) =~= flac_block(last, 6, content) + rest);
        lemma_block_header(bytes, i, last, 6, content, rest);
    } else {
        let b = blocks[0];
        assert(is_flac_block(b));
        let more = flac_blocks(blocks.skip(1)) + flac_block(last, 6, content) + rest;
        assert(bytes.skip(i) =~= flac_block(false, b.0, b.1) + more);
        lemma_block_header(bytes, i, false, b.0, b.1, more);
        assert forall|k: int| 0 <= k < blocks.skip(1).len() implies is_flac_block(
            #[trigger] blocks.skip(1)[k],
        ) && blocks.skip(1)[k].0 != 6 by {
            assert(blocks.skip(1)[k] == blocks[k + 1]);
        }
        lemma_flac_picture_from(bytes, i + 4 + b.1.len(), blocks.skip(1), last, content, rest);
    }
}

/// The cover of a FLAC file is the picture of its picture block, whatever blocks
/// stand in front and however long they are.
pub proof fn law_flac_cover_reads_back(
    blocks: Seq<(u8, Seq<u8>)>,
    last: bool,
    rest: Seq<u8>,
    kind: nat,
    mime: Seq<u8>,
    description: Seq<u8>,
    measures: Seq<u8>,
    picture: Seq<u8>,
)
    requires
        forall|k: int|
            0 <= k < blocks.len() ==> is_flac_block(#[trigger] blocks[k]) && blocks[k].0 != 6,
        measures.len() == 16,
        is_picture(picture),
        picture_block(kind, mime, description, measures, picture).len() < 0x100_0000,
    ensures
        ({
            let file = flac_file(
                blocks,
                last,
                6,
                picture_block(kind, mime, description, measures, picture),
                rest,
            );
            &&& flac::flac_cover(file) == Some(picture)
            &&& vorbis::ogg_comments_of(file).len() == 0 ==> tags::cover_of(file) == Some(picture)
        }),
{
    let content = picture_block(kind, mime, description, measures, picture);
    let file = flac_file(blocks, last, 6, content, rest);
    lemma_picture_block_len(kind, mime, description, measures, picture);
    law_picture_block_reads_back(kind, mime, description, measures, picture);
    lemma_flac_cover(blocks, last, content, rest);
    law_picture_is_found(Seq::empty(), picture);
    assert(id3::first_picture(id3::frames_of(file)) is None);
}

proof fn lemma_picture_block_len(
    kind: nat,
    mime: Seq<u8>,
    description: Seq<u8>,
    measures: Seq<u8>,
    picture: Seq<u8>,
)
    ensures
        picture_block(kind, mime, description, measures, picture).len() == 16 + mime.len()
            + description.len() + measures.len() + picture.len(),
{
    lemma_widths();
}

proof fn lemma_flac_cover(blocks: Seq<(u8, Seq<u8>)>, last: bool, content: Seq<u8>, rest: Seq<u8>)
    requires
        forall|k: int|
            0 <= k < blocks.len() ==> is_flac_block(#[trigger] blocks[k]) && blocks[k].0 != 6,
        content.len() < 0x100_0000,
        flac::block_picture(content) is Some,
    ensures
        flac::flac_cover(flac_file(blocks, last, 6, content, rest)) == Some(
            image::picture_or_all(flac::block_picture(content)->0),
        ),
        id3::frames_of(flac_file(blocks, last, 6, content, rest)).len() == 0,
{
    lemma_widths();
    let file = flac_file(blocks, last, 6, content, rest);
    assert(file.skip(4) =~= flac_blocks(blocks) + flac_block(last, 6, content) + rest);
    assert(file.len() >= 8);
    assert(file.subrange(0, 4) =~= seq![0x66u8, 0x4cu8, 0x61u8, 0x43u8]);
    lemma_flac_picture_from(file, 4, blocks, last, content, rest);
    assert(file[0] == 0x66);
    assert(file.subrange(0, 3)[0] == 0x66);
}

proof fn lemma_flac_comments_from(
    bytes: Seq<u8>,
    i: int,
    blocks: Seq<(u8, Seq<u8>)>,
    last: bool,
    content: Seq<u8>,
    rest: Seq<u8>,
)
    requires
        0 <= i <= bytes.len(),
        forall|k: int|
            0 <= k < blocks.len() ==> is_flac_block(#[trigger] blocks[k]) && blocks[k].0 != 4,
        content.len() < 0x100_0000,
        bytes.skip(i) == flac_blocks(blocks) + flac_block(last, 4, content) + rest,
    ensures
        flac::comment_block_from(bytes, i) == Some(content),
    decreases blocks.len(),
{
    if blocks.len() == 0 {
        assert(bytes.skip(i) =~= flac_block(last, 4, content) + rest);
        lemma_block_header(bytes, i, last, 4, content, rest);
    } else {
        let b = blocks[0];
        assert(is_flac_block(b));
        let more = flac_blocks(blocks.skip(1)) + flac_block(last, 4, content) + rest;
        assert(bytes.skip(i) =~= flac_block(false, b.0, b.1) + more);
        lemma_block_header(bytes, i, false, b.0, b.1, more);
        assert forall|k: int| 0 <= k < blocks.skip(1).len() implies is_flac_block(
            #[trigger] blocks.skip(1)[k],
        ) && blocks.skip(1)[k].0 != 4 by {
            assert(blocks.skip(1)[k] == blocks[k + 1]);
        }
        lemma_flac_comments_from(bytes, i + 4 + b.1.len(), blocks.skip(1), last, content, rest);
    }
}

// ------------------------------------------------------------------ comments

/// A comment behind its length.
pub open spec fn counted(entry: Seq<u8>) -> Seq<u8> {
    little_endian(entry.len()) + entry
}

pub open spec fn all_counted(entries: Seq<Seq<u8>>) -> Seq<u8>
    decreases entries.len(),
{
    if entries.len() == 0 {
        Seq::empty()
    } else {
        counted(entries[0]) + all_counted(entries.skip(1))
    }
}

/// A comment header: the vendor, the number of comments, the comments.
pub open spec fn comment_header(vendor: Seq<u8>, entries: Seq<Seq<u8>>, rest: Seq<u8>) -> Seq<u8> {
    counted(vendor) + little_endian(entries.len()) + all_counted(entries) + rest
}

proof fn lemma_entries_from(body: Seq<u8>, p: int, entries: Seq<Seq<u8>>, rest: Seq<u8>)
    requires
        0 <= p <= body.len(),
        forall|k: int| 0 <= k < entries.len() ==> (#[trigger] entries[k]).len() < 0x1_0000_0000,
        body.skip(p) == all_counted(entries) + rest,
    ensures
        vorbis::entries_from(body, p, entries.len() as int) == entries,
    decreases entries.len(),
{
    lemma_widths();
    if entries.len() == 0 {
        assert(entries =~= Seq::empty());
    } else {
        let e = entries[0];
        let more = all_counted(entries.skip(1)) + rest;
        let tail = body.skip(p);
        assert(tail =~= little_endian(e.len()) + (e + more));
        lemma_little_endian(e.len(), e + more);
        let n = e.len() as int;
        assert(tail.len() >= 4 + n);
        assert(body.subrange(p + 4, p + 4 + n) =~= tail.subrange(4, 4 + n));
        assert(tail.subrange(4, 4 + n) =~= e);
        assert(body.skip(p + 4 + n) =~= tail.skip(4 + n));
        assert(tail.skip(4 + n) =~= more);
        assert forall|k: int| 0 <= k < entries.skip(1).len() implies (#[trigger] entries.skip(
            1,
        )[k]).len() < 0x1_0000_0000 by {
            assert(entries.skip(1)[k] == entries[k + 1]);
        }
        lemma_entries_from(body, p + 4 + n, entries.skip(1), rest);
        assert(seq![e] + entries.skip(1) =~= entries);
    }
}

/// The comments of a header are read as they were put in, each whole and in order.
pub proof fn law_comments_read_back(vendor: Seq<u8>, entries: Seq<Seq<u8>>, rest: Seq<u8>)
    requires
        vendor.len() < 0x1_0000_0000,
        entries.len() < 0x1_0000_0000,
        forall|k: int| 0 <= k < entries.len() ==> (#[trigger] entries[k]).len() < 0x1_0000_0000,
    ensures
        vorbis::entries_of(comment_header(vendor, entries, rest)) == entries,
{
    lemma_widths();
    let body = comment_header(vendor, entries, rest);
    let tail = little_endian(entries.len()) + (all_counted(entries) + rest);
    let v = vendor.len() as int;
    assert(body =~= little_endian(vendor.len()) + (vendor + tail));
    lemma_little_endian(vendor.len(), vendor + tail);
    assert(body.skip(4 + v) =~= tail);
    lemma_little_endian(entries.len(), all_counted(entries) + rest);
    assert(body.skip(8 + v) =~= all_counted(entries) + rest);
    lemma_entries_from(body, 8 + v, entries, rest);
}

/// A comment for a key, in UTF-8.
pub open spec fn comment(key: Seq<char>, value: Seq<char>) -> Seq<u8> {
    vstd::utf8::encode_utf8(key + seq!['='] + value)
}

/// The text behind the equals sign of a comment, blanks around it aside, is the
/// value of its key; a comment for another key has nothing to say on it.
pub proof fn law_comment_gives_its_value(
    key: Seq<char>,
    before: Seq<char>,
    t: Seq<char>,
    after: Seq<char>,
    others: Seq<Seq<u8>>,
    other: Seq<char>,
    x: Seq<char>,
)
    requires
        forall|i: int| 0 <= i < key.len() ==> #[trigger] key[i] != '=',
        forall|i: int| 0 <= i < other.len() ==> #[trigger] other[i] != '=',
        key.len() != other.len(),
        text::is_blank(before),
        text::has_inked_ends(t),
        text::is_blank(after),
    ensures
        vorbis::first_value(seq![comment(key, before + t + after)] + others, key) == t,
        vorbis::first_value(seq![comment(other, x)] + others, key) == vorbis::first_value(
            others,
            key,
        ),
{
    let value = before + t + after;
    lemma_comment(key, value);
    lemma_comment(other, x);
    text::law_trimmed_is_the_text(before, t, after);
    let all = seq![comment(key, value)] + others;
    assert(all[0] == comment(key, value));
    assert(text::same_ignoring_ascii_case(key, key));
    let more = seq![comment(other, x)] + others;
    assert(more[0] == comment(other, x));
    assert(more.skip(1) =~= others);
}

pub proof fn lemma_comment(key: Seq<char>, value: Seq<char>)
    requires
        forall|i: int| 0 <= i < key.len() ==> #[trigger] key[i] != '=',
    ensures
        ({
            let s = key + seq!['='] + value;
            &&& vorbis::entry_text(comment(key, value)) == s
            &&& text::find(s, seq!['=']) == Some(key.len() as int)
            &&& s.take(key.len() as int) == key
            &&& s.skip(key.len() as int + 1) == value
        }),
{
    let s = key + seq!['='] + value;
    let n = key.len() as int;
    vstd::utf8::encode_utf8_valid_utf8(s);
    vstd::utf8::encode_utf8_decode_utf8(s);
    text::lemma_find_from(s, seq!['='], 0);
    assert(s.subrange(n, n + 1) =~= seq!['=']);
    assert(text::occurs_at(s, seq!['='], n));
    assert forall|j: int| 0 <= j < n implies !text::occurs_at(s, seq!['='], j) by {
        assert(s.subrange(j, j + 1)[0] == key[j]);
    }
    assert(s.take(n) =~= key);
    assert(s.skip(n + 1) =~= value);
}

/// The comments of a FLAC file are those of its comment block.
pub proof fn law_flac_comments_read_back(
    blocks: Seq<(u8, Seq<u8>)>,
    last: bool,
    rest: Seq<u8>,
    vendor: Seq<u8>,
    entries: Seq<Seq<u8>>,
)
    requires
        forall|k: int|
            0 <= k < blocks.len() ==> is_flac_block(#[trigger] blocks[k]) && blocks[k].0 != 4,
        vendor.len() < 0x1_0000_0000,
        entries.len() < 0x1_0000_0000,
        forall|k: int| 0 <= k < entries.len() ==> (#[trigger] entries[k]).len() < 0x1_0000_0000,
        comment_header(vendor, entries, Seq::empty()).len() < 0x100_0000,
    ensures
        vorbis::comments_of(
            flac_file(blocks, last, 4, comment_header(vendor, entries, Seq::empty()), rest),
        ) == entries,
{
    lemma_widths();
    let content = comment_header(vendor, entries, Seq::empty());
    let file = flac_file(blocks, last, 4, content, rest);
    assert(file.skip(4) =~= flac_blocks(blocks) + flac_block(last, 4, content) + rest);
    assert(file.subrange(0, 4) =~= seq![0x66u8, 0x4cu8, 0x61u8, 0x43u8]);
    lemma_flac_comments_from(file, 4, blocks, last, content, rest);
    law_comments_read_back(vendor, entries, Seq::empty());
}

// ----------------------------------------------------------------------- Ogg

/// The segment lengths of `n` bytes that end a packet: full ones, and a last one
/// that is not.
pub open spec fn lacing(n: nat) -> Seq<u8> {
    Seq::new(
        n / 255 + 1,
        |i: int|
            if i < n / 255 {
                255u8
            } else {
                (n % 255) as u8
            },
    )
}

/// A page: its mark, 22 bytes of header, the segment lengths behind their number,
/// the payload.
pub open spec fn ogg_page(header: Seq<u8>, lengths: Seq<u8>, payload: Seq<u8>) -> Seq<u8> {
    seq!['O' as u8, 'g' as u8, 'g' as u8, 'S' as u8] + header + seq![lengths.len() as u8] + lengths
        + payload
}

/// The pages of a packet: full ones, and a last one that is not.
pub open spec fn ogg_packet(header: Seq<u8>, packet: Seq<u8>) -> Seq<u8>
    decreases packet.len(),
{
    if packet.len() < 65025 {
        ogg_page(header, lacing(packet.len()), packet)
    } else {
        ogg_page(header, Seq::new(255, |i: int| 255u8), packet.take(65025)) + ogg_packet(
            header,
            packet.skip(65025),
        )
    }
}

pub open spec fn ogg_packets(header: Seq<u8>, packets: Seq<Seq<u8>>) -> Seq<u8>
    decreases packets.len(),
{
    if packets.len() == 0 {
        Seq::empty()
    } else {
        ogg_packet(header, packets[0]) + ogg_packets(header, packets.skip(1))
    }
}

/// What a comment packet of Vorbis begins with.
pub open spec fn vorbis_comment_mark() -> Seq<u8> {
    seq![3u8, 'v' as u8, 'o' as u8, 'r' as u8, 'b' as u8, 'i' as u8, 's' as u8]
}

/// What a comment packet of Opus begins with.
pub open spec fn opus_comment_mark() -> Seq<u8> {
    seq![
        'O' as u8,
        'p' as u8,
        'u' as u8,
        's' as u8,
        'T' as u8,
        'a' as u8,
        'g' as u8,
        's' as u8,
    ]
}

proof fn lemma_full_segments(bytes: Seq<u8>, at: int, n: int)
    requires
        0 <= n,
        forall|k: int| at <= k < at + n ==> #[trigger] bytes[k] == 255,
    ensures
        vorbis::segments_len(bytes, at, n) == 255 * n,
    decreases n,
{
    if n > 0 {
        lemma_full_segments(bytes, at, n - 1);
    }
}

/// A page that stands in a file: its parts, and what follows.
proof fn lemma_page(
    bytes: Seq<u8>,
    i: int,
    header: Seq<u8>,
    lengths: Seq<u8>,
    payload: Seq<u8>,
    rest: Seq<u8>,
)
    requires
        0 <= i <= bytes.len(),
        header.len() == 22,
        lengths.len() <= 255,
        bytes.skip(i) == ogg_page(header, lengths, payload) + rest,
    ensures
        ({
            let n = lengths.len() as int;
            &&& i + 27 + n + payload.len() <= bytes.len()
            &&& vorbis::is_page(bytes, i)
            &&& bytes[i + 26] == n
            &&& forall|k: int| 0 <= k < n ==> bytes[i + 27 + k] == #[trigger] lengths[k]
            &&& bytes.subrange(i + 27 + n, i + 27 + n + payload.len()) == payload
            &&& bytes.skip(i + 27 + n + payload.len()) == rest
        }),
{
    let own = ogg_page(header, lengths, payload);
    let tail = bytes.skip(i);
    let n = lengths.len() as int;
    let m = payload.len() as int;
    assert(own.len() == 27 + n + m);
    assert(tail.len() == own.len() + rest.len());
    assert(forall|k: int| 0 <= k < own.len() ==> tail[k] == own[k]);
    assert(forall|k: int| 0 <= k < tail.len() ==> tail[k] == bytes[i + k]);
    assert(tail[0] == 0x4f && tail[1] == 0x67 && tail[2] == 0x67 && tail[3] == 0x53);
    assert(bytes[i] == tail[0] && bytes[i + 1] == tail[1] && bytes[i + 2] == tail[2] && bytes[i + 3]
        == tail[3]);
    assert(own[26] == n as u8);
    assert(bytes[i + 26] == tail[26]);
    assert forall|k: int| 0 <= k < n implies bytes[i + 27 + k] == #[trigger] lengths[k] by {
        assert(own[27 + k] == lengths[k]);
        assert(tail[27 + k] == own[27 + k]);
        assert(tail[27 + k] == bytes[i + (27 + k)]);
    }
    assert(bytes.subrange(i + 27 + n, i + 27 + n + m) =~= tail.subrange(27 + n, 27 + n + m));
    assert(tail.subrange(27 + n, 27 + n + m) =~= payload);
    assert(bytes.skip(i + 27 + n + m) =~= tail.skip(27 + n + m));
    assert(tail.skip(27 + n + m) =~= rest);
}

/// The pages of a packet that stand in a file: the packet is put together, and is
/// the comments or is passed over.
proof fn lemma_packet(
    bytes: Seq<u8>,
    i: int,
    begun: Seq<u8>,
    header: Seq<u8>,
    packet: Seq<u8>,
    rest: Seq<u8>,
)
    requires
        0 <= i <= bytes.len(),
        header.len() == 22,
        bytes.skip(i) == ogg_packet(header, packet) + rest,
    ensures
        ({
            let end = i + ogg_packet(header, packet).len();
            &&& end <= bytes.len()
            &&& bytes.skip(end) == rest
            &&& vorbis::comment_body_from(bytes, i, begun) == (match vorbis::behind_mark(
                begun + packet,
            ) {
                Some(b) => Some(b),
                None => vorbis::comment_body_from(bytes, end, Seq::empty()),
            })
        }),
    decreases packet.len(),
{
    if packet.len() < 65025 {
        let lengths = lacing(packet.len());
        let q = packet.len() / 255;
        assert(lengths.len() <= 255);
        lemma_page(bytes, i, header, lengths, packet, rest);
        let hdr = i + 27;
        assert forall|k: int| hdr <= k < hdr + q implies #[trigger] bytes[k] == 255 by {
            assert(lengths[k - hdr] == 255);
            assert(bytes[i + 27 + (k - hdr)] == lengths[k - hdr]);
        }
        lemma_full_segments(bytes, hdr, q as int);
        assert(bytes[i + 27 + q as int] == lengths[q as int]);
        assert(lengths[q as int] == packet.len() % 255);
        assert(vorbis::segments_len(bytes, hdr, q as int + 1) == packet.len());
    } else {
        let lengths = Seq::new(255, |i: int| 255u8);
        let part = packet.take(65025);
        let more = packet.skip(65025);
        let behind = ogg_packet(header, more) + rest;
        assert(bytes.skip(i) =~= ogg_page(header, lengths, part) + behind);
        lemma_page(bytes, i, header, lengths, part, behind);
        let hdr = i + 27;
        assert forall|k: int| hdr <= k < hdr + 255 implies #[trigger] bytes[k] == 255 by {
            assert(lengths[k - hdr] == 255);
            assert(bytes[i + 27 + (k - hdr)] == lengths[k - hdr]);
        }
        lemma_full_segments(bytes, hdr, 255);
        assert(bytes[hdr + 254] == 255);
        let next = i + 27 + 255 + 65025;
        assert(ogg_page(header, lengths, part).len() == 27 + 255 + 65025);
        lemma_packet(bytes, next, begun + part, header, more, rest);
        assert(begun + part + more =~= begun + packet);
    }
}

pub proof fn lemma_packets(
    bytes: Seq<u8>,
    i: int,
    header: Seq<u8>,
    packets: Seq<Seq<u8>>,
    packet: Seq<u8>,
    rest: Seq<u8>,
)
    requires
        0 <= i <= bytes.len(),
        header.len() == 22,
        forall|k: int| 0 <= k < packets.len() ==> vorbis::behind_mark(#[trigger] packets[k]) is None,
        vorbis::behind_mark(packet) is Some,
        bytes.skip(i) == ogg_packets(header, packets) + ogg_packet(header, packet) + rest,
    ensures
        vorbis::comment_body_from(bytes, i, Seq::empty()) == vorbis::behind_mark(packet),
    decreases packets.len(),
{
    if packets.len() == 0 {
        assert(bytes.skip(i) =~= ogg_packet(header, packet) + rest);
        lemma_packet(bytes, i, Seq::empty(), header, packet, rest);
        assert(Seq::<u8>::empty() + packet =~= packet);
    } else {
        let p = packets[0];
        let behind = ogg_packets(header, packets.skip(1)) + ogg_packet(header, packet) + rest;
        assert(bytes.skip(i) =~= ogg_packet(header, p) + behind);
        lemma_packet(bytes, i, Seq::empty(), header, p, behind);
        assert(Seq::<u8>::empty() + p =~= p);
        assert forall|k: int| 0 <= k < packets.skip(1).len() implies vorbis::behind_mark(
            #[trigger] packets.skip(1)[k],
        ) is None by {
            assert(packets.skip(1)[k] == packets[k + 1]);
        }
        lemma_packets(
            bytes,
            i + ogg_packet(header, p).len(),
            header,
            packets.skip(1),
            packet,
            rest,
        );
    }
}

/// A packet that begins neither as comments of Vorbis nor as those of Opus do.
pub open spec fn is_other_packet(p: Seq<u8>) -> bool {
    p.len() > 0 && p[0] != 3 && p[0] != 'O' as u8 || p.len() >= 5 && p[0] == 'O' as u8 && p[4]
        != 'T' as u8
}

/// The comments of an Ogg file are those of its comment packet, of Vorbis or of
/// Opus, over however many pages it is laid and whatever packets stand in front.
pub proof fn law_ogg_comments_read_back(
    header: Seq<u8>,
    packets: Seq<Seq<u8>>,
    opus: bool,
    vendor: Seq<u8>,
    entries: Seq<Seq<u8>>,
    padding: Seq<u8>,
    rest: Seq<u8>,
)
    requires
        header.len() == 22,
        forall|k: int| 0 <= k < packets.len() ==> is_other_packet(#[trigger] packets[k]),
        vendor.len() < 0x1_0000_0000,
        entries.len() < 0x1_0000_0000,
        forall|k: int| 0 <= k < entries.len() ==> (#[trigger] entries[k]).len() < 0x1_0000_0000,
    ensures
        vorbis::ogg_comments_of(
            ogg_packets(header, packets) + ogg_packet(
                header,
                (if opus {
                    opus_comment_mark()
                } else {
                    vorbis_comment_mark()
                }) + comment_header(vendor, entries, padding),
            ) + rest,
        ) == entries,
{
    let body = comment_header(vendor, entries, padding);
    let mark = if opus {
        opus_comment_mark()
    } else {
        vorbis_comment_mark()
    };
    let packet = mark + body;
    let file = ogg_packets(header, packets) + ogg_packet(header, packet) + rest;
    assert(file.skip(0) =~= file);
    assert(vorbis_comment_mark() =~= vorbis::vorbis_mark());
    assert(opus_comment_mark() =~= vorbis::opus_mark());
    assert(packet.subrange(0, mark.len() as int) =~= mark);
    assert(packet.skip(mark.len() as int) =~= body);
    if opus {
        assert(packet[0] == 'O' as u8);
        assert(!text::begins(packet, vorbis::vorbis_mark())) by {
            assert(packet.subrange(0, 7)[0] == packet[0]);
        }
    }
    assert(vorbis::behind_mark(packet) == Some(body));
    assert forall|k: int| 0 <= k < packets.len() implies vorbis::behind_mark(
        #[trigger] packets[k],
    ) is None by {
        let p = packets[k];
        assert(is_other_packet(p));
        if text::begins(p, vorbis::vorbis_mark()) {
            assert(p.subrange(0, 7)[0] == p[0]);
        }
        if text::begins(p, vorbis::opus_mark()) {
            assert(p.subrange(0, 8)[0] == p[0]);
            assert(p.subrange(0, 8)[4] == p[4]);
        }
    }
    lemma_packets(file, 0, header, packets, packet, rest);
    law_comments_read_back(vendor, entries, padding);
}

/// A picture block in the comments, in Base64, gives its picture.
pub proof fn law_picture_comment_reads_back(
    kind: nat,
    mime: Seq<u8>,
    description: Seq<u8>,
    measures: Seq<u8>,
    picture: Seq<u8>,
    others: Seq<Seq<u8>>,
)
    requires
        mime.len() < 0x1_0000_0000,
        description.len() < 0x1_0000_0000,
        measures.len() == 16,
        is_picture(picture),
    ensures
        vorbis::first_picture(
            seq![
                comment(
                    "METADATA_BLOCK_PICTURE"@,
                    crypto::base64_text(
                        picture_block(kind, mime, description, measures, picture),
                    ),
                ),
            ] + others,
        ) == Some(picture),
{
    let block = picture_block(kind, mime, description, measures, picture);
    law_picture_block_reads_back(kind, mime, description, measures, picture);
    law_picture_is_found(Seq::empty(), picture);
    lemma_picture_comment(block, others);
}

proof fn lemma_picture_comment(block: Seq<u8>, others: Seq<Seq<u8>>)
    requires
        flac::block_picture(block) is Some,
    ensures
        vorbis::first_picture(
            seq![comment("METADATA_BLOCK_PICTURE"@, crypto::base64_text(block))] + others,
        ) == Some(image::picture_or_all(flac::block_picture(block)->0)),
{
    let value = crypto::base64_text(block);
    let key = "METADATA_BLOCK_PICTURE"@;
    reveal_strlit("METADATA_BLOCK_PICTURE");
    let e = comment(key, value);
    lemma_comment(key, value);
    assert(text::same_ignoring_ascii_case(key, key));
    base64::law_decode_encoded(block);
    assert((seq![e] + others)[0] == e);
}

// ------------------------------------------------------------ where it ends

proof fn lemma_no_picture_before_the_end(
    bytes: Seq<u8>,
    i: int,
    blocks: Seq<(u8, Seq<u8>)>,
    kind: u8,
    content: Seq<u8>,
    rest: Seq<u8>,
)
    requires
        0 <= i <= bytes.len(),
        forall|k: int|
            0 <= k < blocks.len() ==> is_flac_block(#[trigger] blocks[k]) && blocks[k].0 != 6,
        is_flac_block((kind, content)),
        kind != 6,
        bytes.skip(i) == flac_blocks(blocks) + flac_block(true, kind, content) + rest,
    ensures
        flac::picture_from(bytes, i) is None,
    decreases blocks.len(),
{
    if blocks.len() == 0 {
        assert(bytes.skip(i) =~= flac_block(true, kind, content) + rest);
        lemma_block_header(bytes, i, true, kind, content, rest);
    } else {
        let b = blocks[0];
        assert(is_flac_block(b));
        let more = flac_blocks(blocks.skip(1)) + flac_block(true, kind, content) + rest;
        assert(bytes.skip(i) =~= flac_block(false, b.0, b.1) + more);
        lemma_block_header(bytes, i, false, b.0, b.1, more);
        assert forall|k: int| 0 <= k < blocks.skip(1).len() implies is_flac_block(
            #[trigger] blocks.skip(1)[k],
        ) && blocks.skip(1)[k].0 != 6 by {
            assert(blocks.skip(1)[k] == blocks[k + 1]);
        }
        lemma_no_picture_before_the_end(
            bytes,
            i + 4 + b.1.len(),
            blocks.skip(1),
            kind,
            content,
            rest,
        );
    }
}

proof fn lemma_no_comments_before_the_end(
    bytes: Seq<u8>,
    i: int,
    blocks: Seq<(u8, Seq<u8>)>,
    kind: u8,
    content: Seq<u8>,
    rest: Seq<u8>,
)
    requires
        0 <= i <= bytes.len(),
        forall|k: int|
            0 <= k < blocks.len() ==> is_flac_block(#[trigger] blocks[k]) && blocks[k].0 != 4,
        is_flac_block((kind, content)),
        kind != 4,
        bytes.skip(i) == flac_blocks(blocks) + flac_block(true, kind, content) + rest,
    ensures
        flac::comment_block_from(bytes, i) is None,
    decreases blocks.len(),
{
    if blocks.len() == 0 {
        assert(bytes.skip(i) =~= flac_block(true, kind, content) + rest);
        lemma_block_header(bytes, i, true, kind, content, rest);
    } else {
        let b = blocks[0];
        assert(is_flac_block(b));
        let more = flac_blocks(blocks.skip(1)) + flac_block(true, kind, content) + rest;
        assert(bytes.skip(i) =~= flac_block(false, b.0, b.1) + more);
        lemma_block_header(bytes, i, false, b.0, b.1, more);
        assert forall|k: int| 0 <= k < blocks.skip(1).len() implies is_flac_block(
            #[trigger] blocks.skip(1)[k],
        ) && blocks.skip(1)[k].0 != 4 by {
            assert(blocks.skip(1)[k] == blocks[k + 1]);
        }
        lemma_no_comments_before_the_end(
            bytes,
            i + 4 + b.1.len(),
            blocks.skip(1),
            kind,
            content,
            rest,
        );
    }
}

/// Behind the last block nothing is looked for: what stands there is sound.
pub proof fn law_last_block_ends_the_search(
    blocks: Seq<(u8, Seq<u8>)>,
    kind: u8,
    content: Seq<u8>,
    rest: Seq<u8>,
)
    requires
        forall|k: int|
            0 <= k < blocks.len() ==> is_flac_block(#[trigger] blocks[k]) && blocks[k].0 != 6
                && blocks[k].0 != 4,
        is_flac_block((kind, content)),
        kind != 6,
        kind != 4,
    ensures
        flac::flac_cover(flac_file(blocks, true, kind, content, rest)) is None,
        vorbis::comments_of(flac_file(blocks, true, kind, content, rest)).len() == 0,
{
    lemma_widths();
    let file = flac_file(blocks, true, kind, content, rest);
    assert(file.skip(4) =~= flac_blocks(blocks) + flac_block(true, kind, content) + rest);
    assert(file.len() >= 8);
    assert(file.subrange(0, 4) =~= seq![0x66u8, 0x4cu8, 0x61u8, 0x43u8]);
    lemma_no_picture_before_the_end(file, 4, blocks, kind, content, rest);
    lemma_no_comments_before_the_end(file, 4, blocks, kind, content, rest);
}

/// A frame without data, one that is longer than the tag, and padding end the walk.
pub proof fn law_walk_ends(bytes: Seq<u8>, safe: bool, pos: int, end: int, n: nat)
    requires
        0 <= pos,
        pos + 10 <= end <= bytes.len(),
        n < 0x1000_0000,
        bytes.subrange(pos + 4, pos + 8) == (if safe {
            seven_bit(n)
        } else {
            big_endian(n)
        }),
    ensures
        n == 0 || pos + 10 + n > end ==> id3::frames_from(bytes, safe, pos, end).len() == 0,
        bytes[pos] == 0 ==> id3::frames_from(bytes, safe, pos, end).len() == 0,
{
    law_numbers_read_back(n, Seq::empty());
    assert(seven_bit(n) + Seq::<u8>::empty() =~= seven_bit(n));
    assert(big_endian(n) + Seq::<u8>::empty() =~= big_endian(n));
}

/// A JPEG or PNG file of at most a mebibyte begins at `i`.
pub open spec fn begins_picture(p: Seq<u8>, i: int) -> bool {
    &&& 0 <= i
    &&& (i + 4 <= p.len() && p[i] == 0xff && p[i + 1] == 0xd8) || (i + 8 <= p.len() && p[i] == 0x89
        && p[i + 1] == 'P' as u8 && p[i + 2] == 'N' as u8 && p[i + 3] == 'G' as u8)
    &&& p.len() - i <= 1048576
}

/// A picture is taken from the first place where one can begin, to the end.
pub proof fn law_first_picture_is_taken(p: Seq<u8>)
    ensures
        match image::picture_in(p) {
            Some(q) => exists|i: int|
                #[trigger] begins_picture(p, i) && q == p.skip(i) && forall|j: int|
                    0 <= j < i ==> !#[trigger] begins_picture(p, j),
            None => forall|j: int| !#[trigger] begins_picture(p, j),
        },
{
    lemma_first_picture_from(p, 0);
}

proof fn lemma_first_picture_from(p: Seq<u8>, from: int)
    requires
        0 <= from,
    ensures
        match image::picture_from(p, from) {
            Some(q) => exists|i: int|
                #[trigger] begins_picture(p, i) && from <= i && q == p.skip(i) && forall|j: int|
                    from <= j < i ==> !#[trigger] begins_picture(p, j),
            None => forall|j: int| from <= j ==> !#[trigger] begins_picture(p, j),
        },
    decreases p.len() - from,
{
    if from + 3 < p.len() {
        if begins_picture(p, from) {
            assert(image::picture_from(p, from) == Some(p.skip(from)));
        } else {
            lemma_first_picture_from(p, from + 1);
            assert(image::picture_from(p, from) == image::picture_from(p, from + 1));
        }
    }
}

/// A picture block that is cut short holds no picture, and neither does one whose
/// picture is empty.
pub proof fn law_cut_block_holds_no_picture(
    kind: nat,
    mime: Seq<u8>,
    description: Seq<u8>,
    measures: Seq<u8>,
    picture: Seq<u8>,
)
    requires
        mime.len() < 0x1_0000_0000,
        description.len() < 0x1_0000_0000,
        measures.len() == 16,
        0 < picture.len() < 0x1_0000_0000,
    ensures
        flac::block_picture(
            picture_block(kind, mime, description, measures, picture).drop_last(),
        ) is None,
        flac::block_picture(
            picture_block(kind, mime, description, measures, Seq::empty()),
        ) is None,
{
    lemma_widths();
    lemma_block_fields(kind, mime, description, measures, picture, picture.drop_last());
    lemma_block_fields(kind, mime, description, measures, Seq::empty(), Seq::empty());
    let whole = picture_block(kind, mime, description, measures, picture);
    assert(whole.drop_last() =~= big_endian(kind) + (big_endian(mime.len()) + (mime + (big_endian(
        description.len(),
    ) + (description + measures + (big_endian(picture.len()) + picture.drop_last()))))));
    assert(picture_block(kind, mime, description, measures, Seq::empty()) =~= big_endian(kind) + (
    big_endian(mime.len()) + (mime + (big_endian(description.len()) + (description + measures + (
    big_endian(0) + Seq::<u8>::empty()))))));
}

proof fn lemma_block_fields(
    kind: nat,
    mime: Seq<u8>,
    description: Seq<u8>,
    measures: Seq<u8>,
    picture: Seq<u8>,
    there: Seq<u8>,
)
    requires
        mime.len() < 0x1_0000_0000,
        description.len() < 0x1_0000_0000,
        measures.len() == 16,
        picture.len() < 0x1_0000_0000,
        picture.len() == 0 || there.len() < picture.len(),
    ensures
        flac::block_picture(
            big_endian(kind) + (big_endian(mime.len()) + (mime + (big_endian(description.len()) + (
            description + measures + (big_endian(picture.len()) + there))))),
        ) is None,
{
    lemma_widths();
    let m = mime.len() as int;
    let d = description.len() as int;
    let t3 = big_endian(picture.len()) + there;
    let t2 = big_endian(description.len()) + (description + measures + t3);
    let t1 = big_endian(mime.len()) + (mime + t2);
    let block = big_endian(kind) + t1;
    assert(block.skip(4) =~= t1);
    lemma_big_endian(mime.len(), mime + t2);
    assert(block.skip(8 + m) =~= t2);
    lemma_big_endian(description.len(), description + measures + t3);
    assert(block.skip(8 + m + 4 + d + 16) =~= t3);
    lemma_big_endian(picture.len(), there);
}

/// A picture frame with nothing behind its description holds no picture.
pub proof fn law_empty_frame_holds_no_picture(
    enc: u8,
    mime: Seq<u8>,
    kind: u8,
    description: Seq<u8>,
)
    requires
        without_zero(mime),
        is_description(enc, description),
    ensures
        id3::apic_picture(apic_data(enc, mime, kind, description, Seq::empty())) is None,
{
    lemma_apic_rest(enc, mime, kind, description, Seq::empty());
}

} // verus!
