//! Which of several frames or comments is read.

use vstd::prelude::*;
use crate::tags;
use crate::tags::id3;
use crate::tags::laws;
use crate::tags::vorbis;
use crate::text;

verus! {

// --------------------------------------------------------------------- frames

/// A frame with another identifier is passed over, and so is one that holds no
/// text, no lyrics or no picture.
pub proof fn law_frames_that_hold_nothing_are_passed(
    id: Seq<u8>,
    data: Seq<u8>,
    rest: Seq<(Seq<u8>, Seq<u8>)>,
    want: Seq<u8>,
    names: Seq<Seq<char>>,
)
    ensures
        ({
            let all = seq![(id, data)] + rest;
            &&& id != want || id3::frame_text(data).len() == 0 ==> id3::first_text(all, want)
                == id3::first_text(rest, want)
            &&& id != seq!['U' as u8, 'S' as u8, 'L' as u8, 'T' as u8] || id3::uslt_text(data).len()
                == 0 ==> id3::first_uslt(all) == id3::first_uslt(rest)
            &&& id != seq!['T' as u8, 'X' as u8, 'X' as u8, 'X' as u8] || id3::txxx_value(
                data,
                names,
            ).len() == 0 ==> id3::first_txxx(all, names) == id3::first_txxx(rest, names)
            &&& id != seq!['A' as u8, 'P' as u8, 'I' as u8, 'C' as u8] || id3::apic_picture(data)
                is None ==> id3::first_picture(all) == id3::first_picture(rest)
        }),
        id3::first_text(Seq::empty(), want).len() == 0,
        id3::first_uslt(Seq::empty()).len() == 0,
        id3::first_txxx(Seq::empty(), names).len() == 0,
        id3::first_picture(Seq::empty()) is None,
{
    let all = seq![(id, data)] + rest;
    assert(all[0] == (id, data));
    assert(all.skip(1) =~= rest);
    assert(id3::USLT@ =~= seq!['U' as u8, 'S' as u8, 'L' as u8, 'T' as u8]);
    assert(id3::TXXX@ =~= seq!['T' as u8, 'X' as u8, 'X' as u8, 'X' as u8]);
    assert(id3::APIC@ =~= seq!['A' as u8, 'P' as u8, 'I' as u8, 'C' as u8]);
}

/// The first frame that holds something is the one that is read.
pub proof fn law_first_full_frame_is_read(
    data: Seq<u8>,
    rest: Seq<(Seq<u8>, Seq<u8>)>,
    want: Seq<u8>,
    names: Seq<Seq<char>>,
)
    ensures
        id3::frame_text(data).len() > 0 ==> id3::first_text(seq![(want, data)] + rest, want)
            == id3::frame_text(data),
        id3::uslt_text(data).len() > 0 ==> id3::first_uslt(
            seq![(seq!['U' as u8, 'S' as u8, 'L' as u8, 'T' as u8], data)] + rest,
        ) == id3::uslt_text(data),
        id3::txxx_value(data, names).len() > 0 ==> id3::first_txxx(
            seq![(seq!['T' as u8, 'X' as u8, 'X' as u8, 'X' as u8], data)] + rest,
            names,
        ) == id3::txxx_value(data, names),
        id3::apic_picture(data) is Some ==> id3::first_picture(
            seq![(seq!['A' as u8, 'P' as u8, 'I' as u8, 'C' as u8], data)] + rest,
        ) == id3::apic_picture(data),
{
    assert((seq![(want, data)] + rest)[0] == (want, data));
    assert(id3::USLT@ =~= seq!['U' as u8, 'S' as u8, 'L' as u8, 'T' as u8]);
    assert(id3::TXXX@ =~= seq!['T' as u8, 'X' as u8, 'X' as u8, 'X' as u8]);
    assert(id3::APIC@ =~= seq!['A' as u8, 'P' as u8, 'I' as u8, 'C' as u8]);
    assert((seq![(id3::USLT@, data)] + rest)[0] == (id3::USLT@, data));
    assert((seq![(id3::TXXX@, data)] + rest)[0] == (id3::TXXX@, data));
    assert((seq![(id3::APIC@, data)] + rest)[0] == (id3::APIC@, data));
}

/// A string ends at its zero: what stands behind it is not part of it. Without one
/// it goes to the end of the frame.
pub proof fn law_strings_end_at_their_zero(
    head: Seq<u8>,
    t: Seq<char>,
    behind: Seq<u8>,
    enc: u8,
)
    requires
        enc == 0 || enc == 3,
        text::has_inked_ends(t),
        laws::without_zero(vstd::utf8::encode_utf8(t)),
        vstd::utf8::encode_utf8(t).len() > 0,
    ensures
        text::lossy_text(vstd::utf8::encode_utf8(t)) == t ==> id3::string_at(
            head + vstd::utf8::encode_utf8(t) + seq![0u8] + behind,
            enc,
            head.len() as int,
        ) == t,
        text::lossy_text(vstd::utf8::encode_utf8(t)) == t ==> id3::string_at(
            head + vstd::utf8::encode_utf8(t),
            enc,
            head.len() as int,
        ) == t,
        id3::string_end(
            head + vstd::utf8::encode_utf8(t) + seq![0u8] + behind,
            enc,
            head.len() as int,
        ) == head.len() + vstd::utf8::encode_utf8(t).len() + 1,
        id3::string_at(head, enc, head.len() as int) == Seq::<char>::empty(),
{
    let e = vstd::utf8::encode_utf8(t);
    let n = head.len() as int;
    let k = n + e.len() as int;
    let data = head + e + seq![0u8] + behind;
    text::law_trimmed_is_the_text(Seq::empty(), t, Seq::empty());
    let txt = data.skip(n);
    assert(txt =~= e + seq![0u8] + behind);
    laws::law_zero_is_found(txt, 0);
    assert(txt[e.len() as int] == 0);
    assert forall|i: int| 0 <= i < e.len() implies txt[i] != 0 by {
        assert(txt[i] == e[i]);
    }
    assert(txt.take(e.len() as int) =~= e);
    laws::law_zero_is_found(data, n);
    assert(data[k] == 0);
    assert forall|i: int| n <= i < k implies data[i] != 0 by {
        assert(data[i] == e[i - n]);
    }
    let short = head + e;
    assert(short.skip(n) =~= e);
    laws::law_zero_is_found(e, 0);
}

/// A custom frame whose description is asked for gives the text behind it.
pub proof fn law_custom_frame_gives_its_value(
    enc: u8,
    name: Seq<char>,
    t: Seq<char>,
    names: Seq<Seq<char>>,
    k: int,
)
    requires
        enc == 0 || enc == 3,
        text::has_inked_ends(name),
        laws::without_zero(vstd::utf8::encode_utf8(name)),
        vstd::utf8::encode_utf8(name).len() > 0,
        text::has_inked_ends(t),
        laws::without_zero(vstd::utf8::encode_utf8(t)),
        vstd::utf8::encode_utf8(t).len() > 0,
        0 <= k < names.len(),
        names[k] == name,
    ensures
        text::lossy_text(vstd::utf8::encode_utf8(name)) == name && text::lossy_text(
            vstd::utf8::encode_utf8(t),
        ) == t ==> id3::txxx_value(
            seq![enc] + vstd::utf8::encode_utf8(name) + seq![0u8] + vstd::utf8::encode_utf8(t),
            names,
        ) == t,
{
    let a = vstd::utf8::encode_utf8(name);
    let b = vstd::utf8::encode_utf8(t);
    let data = seq![enc] + a + seq![0u8] + b;
    law_strings_end_at_their_zero(seq![enc], name, b, enc);
    let head = seq![enc] + a + seq![0u8];
    assert(data =~= head + b);
    law_strings_end_at_their_zero(head, t, Seq::empty(), enc);
    assert(data[0] == enc);
    assert(text::lowercase_text(name) == text::lowercase_text(names[k]));
}

/// The descriptions under which lyrics are looked for.
pub proof fn law_lyrics_have_eight_names()
    ensures
        tags::lyric_names() == seq![
            "lyrics-eng"@,
            "lyrics-xxx"@,
            "lyrics"@,
            "lyrics3"@,
            "unsync"@,
            "unsyncedlyrics"@,
            "eng"@,
            "xxx"@,
        ],
{
}

/// Lyrics are those of a lyrics frame; where it has none but blanks, those of a
/// custom frame; and else those of the comments, in files that carry comments.
pub proof fn law_lyrics_are_looked_for_in_order(bytes: Seq<u8>)
    ensures
        ({
            let frames = id3::frames_of(bytes);
            let own = id3::first_uslt(frames);
            let custom = id3::first_txxx(frames, tags::lyric_names());
            let comments = vorbis::first_value(vorbis::comments_of(bytes), "LYRICS"@);
            let carries = bytes.len() >= 4 && (bytes.take(4) == seq![
                'O' as u8,
                'g' as u8,
                'g' as u8,
                'S' as u8,
            ] || bytes.take(4) == seq!['f' as u8, 'L' as u8, 'a' as u8, 'C' as u8]);
            &&& text::trimmed(own).len() > 0 ==> tags::lyrics_of(bytes) == own
            &&& text::trimmed(own).len() == 0 && text::trimmed(custom).len() > 0
                ==> tags::lyrics_of(bytes) == custom
            &&& text::trimmed(own).len() == 0 && text::trimmed(custom).len() == 0 && carries
                ==> tags::lyrics_of(bytes) == comments
            &&& text::trimmed(own).len() == 0 && text::trimmed(custom).len() == 0 && !carries
                ==> tags::lyrics_of(bytes).len() == 0
        }),
{
    if bytes.len() >= 4 {
        let ogg = seq!['O' as u8, 'g' as u8, 'g' as u8, 'S' as u8];
        let flac = seq!['f' as u8, 'L' as u8, 'a' as u8, 'C' as u8];
        let front = bytes.take(4);
        assert(front[0] == bytes[0] && front[1] == bytes[1] && front[2] == bytes[2] && front[3]
            == bytes[3]);
        assert(tags::is_ogg(bytes) <==> front == ogg) by {
            if tags::is_ogg(bytes) {
                assert(front =~= ogg);
            }
        }
        assert(bytes.subrange(0, 4) =~= front);
        assert(crate::tags::flac::is_flac(bytes) <==> front == flac) by {
            if crate::tags::flac::is_flac(bytes) {
                assert(front =~= flac);
            }
        }
    }
}

// ------------------------------------------------------------------- comments

/// Two keys that differ at most in the case of ASCII letters.
pub open spec fn same_key(a: Seq<char>, b: Seq<char>) -> bool {
    a.len() == b.len() && forall|i: int|
        0 <= i < a.len() ==> a[i] == #[trigger] b[i] || (65 <= a[i] <= 90 && b[i] as int == a[i]
            as int + 32) || (97 <= a[i] <= 122 && b[i] as int == a[i] as int - 32)
}

/// The key of a comment is found in any case of its letters, and a comment with
/// another key or a blank value is passed over.
pub proof fn law_comment_keys_in_any_case(
    own: Seq<char>,
    key: Seq<char>,
    t: Seq<char>,
    blank: Seq<char>,
    others: Seq<Seq<u8>>,
)
    requires
        forall|i: int| 0 <= i < own.len() ==> #[trigger] own[i] != '=',
        text::has_inked_ends(t),
        text::is_blank(blank),
    ensures
        same_key(own, key) ==> vorbis::first_value(seq![laws::comment(own, t)] + others, key) == t,
        !same_key(own, key) ==> vorbis::first_value(seq![laws::comment(own, t)] + others, key)
            == vorbis::first_value(others, key),
        vorbis::first_value(seq![laws::comment(own, blank)] + others, key) == vorbis::first_value(
            others,
            key,
        ),
        vorbis::first_value(Seq::empty(), key) == Seq::<char>::empty(),
{
    laws::lemma_comment(own, t);
    laws::lemma_comment(own, blank);
    text::law_trimmed_is_the_text(blank, t, Seq::empty());
    lemma_same_key(own, key);
    let a = seq![laws::comment(own, t)] + others;
    assert(a[0] == laws::comment(own, t));
    assert(a.skip(1) =~= others);
    let b = seq![laws::comment(own, blank)] + others;
    assert(b[0] == laws::comment(own, blank));
    assert(b.skip(1) =~= others);
}

proof fn lemma_same_key(a: Seq<char>, b: Seq<char>)
    ensures
        text::same_ignoring_ascii_case(a, b) <==> same_key(a, b),
{
    if a.len() == b.len() {
        assert forall|i: int| 0 <= i < a.len() implies (text::ascii_lower(a[i]) == text::ascii_lower(
            b[i],
        )) == (a[i] == #[trigger] b[i] || (65 <= a[i] <= 90 && b[i] as int == a[i] as int + 32) || (
        97 <= a[i] <= 122 && b[i] as int == a[i] as int - 32)) by {
            lemma_same_letter(a[i], b[i]);
        }
        if text::same_ignoring_ascii_case(a, b) {
            assert forall|i: int| 0 <= i < a.len() implies a[i] == #[trigger] b[i] || (65 <= a[i] <= 90
                && b[i] as int == a[i] as int + 32) || (97 <= a[i] <= 122 && b[i] as int == a[i] as int
                - 32) by {
                assert(text::ascii_lower(a[i]) == text::ascii_lower(b[i]));
            }
        }
        if same_key(a, b) {
            assert forall|i: int| 0 <= i < a.len() implies text::ascii_lower(#[trigger] a[i])
                == text::ascii_lower(b[i]) by {
                let other = b[i];
            }
        }
    }
}

proof fn lemma_same_letter(a: char, b: char)
    ensures
        (text::ascii_lower(a) == text::ascii_lower(b)) == (a == b || (65 <= a <= 90 && b as int == a
            as int + 32) || (97 <= a <= 122 && b as int == a as int - 32)),
{
}

/// What stands in front of the first page of an Ogg file is passed over.
pub proof fn law_junk_is_passed_over(
    junk: Seq<u8>,
    header: Seq<u8>,
    vendor: Seq<u8>,
    entries: Seq<Seq<u8>>,
    padding: Seq<u8>,
    rest: Seq<u8>,
)
    requires
        forall|i: int| 0 <= i < junk.len() ==> #[trigger] junk[i] != 'O' as u8,
        header.len() == 22,
        vendor.len() < 0x1_0000_0000,
        entries.len() < 0x1_0000_0000,
        forall|k: int| 0 <= k < entries.len() ==> (#[trigger] entries[k]).len() < 0x1_0000_0000,
    ensures
        vorbis::ogg_comments_of(
            junk + (laws::ogg_packet(
                header,
                laws::vorbis_comment_mark() + laws::comment_header(vendor, entries, padding),
            ) + rest),
        ) == entries,
{
    let body = laws::comment_header(vendor, entries, padding);
    let mark = laws::vorbis_comment_mark();
    let packet = mark + body;
    let pages = laws::ogg_packet(header, packet) + rest;
    let file = junk + pages;
    let n = junk.len() as int;
    assert(mark =~= vorbis::vorbis_mark());
    assert(packet.subrange(0, 7) =~= mark);
    assert(packet.skip(7) =~= body);
    assert(vorbis::behind_mark(packet) == Some(body));
    let none = Seq::<Seq<u8>>::empty();
    assert(laws::ogg_packets(header, none) =~= Seq::empty());
    assert(laws::ogg_packets(header, none) + laws::ogg_packet(header, packet) + rest =~= pages);
    assert(file.skip(n) =~= pages);
    laws::lemma_packets(file, n, header, none, packet, rest);
    lemma_page_is_long(header, packet);
    lemma_no_page(file, 0, n);
    laws::law_comments_read_back(vendor, entries, padding);
}

proof fn lemma_page_is_long(header: Seq<u8>, packet: Seq<u8>)
    requires
        header.len() == 22,
    ensures
        laws::ogg_packet(header, packet).len() >= 27,
{
}

proof fn lemma_no_page(bytes: Seq<u8>, i: int, n: int)
    requires
        0 <= i <= n,
        n + 27 <= bytes.len(),
        forall|k: int| 0 <= k < n ==> #[trigger] bytes[k] != 0x4f,
    ensures
        vorbis::comment_body_from(bytes, i, Seq::empty()) == vorbis::comment_body_from(
            bytes,
            n,
            Seq::empty(),
        ),
    decreases n - i,
{
    if i < n {
        lemma_no_page(bytes, i + 1, n);
        assert(bytes[i] != 0x4f);
    }
}

} // verus!
