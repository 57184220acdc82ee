//! Reading Base64 as comments carry it.

use vstd::prelude::*;
use crate::provider::netease::crypto;
use crate::tags::image;

verus! {

pub open spec fn is_space(b: u8) -> bool {
    b == 0x20 || b == 0x09 || b == 0x0a || b == 0x0c || b == 0x0d
}

/// The bytes that are not white space.
pub open spec fn without_space(s: Seq<u8>) -> Seq<u8>
    decreases s.len(),
{
    if s.len() == 0 {
        s
    } else {
        let front = without_space(s.drop_last());
        if is_space(s.last()) {
            front
        } else {
            front.push(s.last())
        }
    }
}

/// The value of a Base64 character; the padding counts as zero.
pub open spec fn sextet_value(b: u8) -> Option<int> {
    if 0x41 <= b <= 0x5a {
        Some(b - 0x41)
    } else if 0x61 <= b <= 0x7a {
        Some(b - 0x61 + 26)
    } else if 0x30 <= b <= 0x39 {
        Some(b - 0x30 + 52)
    } else if b == 0x2b {
        Some(62int)
    } else if b == 0x2f {
        Some(63int)
    } else if b == 0x3d {
        Some(0int)
    } else {
        None
    }
}

/// The bytes of four characters; padding in the last two places takes a byte
/// away each.
pub open spec fn group_bytes(s: Seq<u8>) -> Seq<u8> {
    let a = sextet_value(s[0])->0;
    let b = sextet_value(s[1])->0;
    let c = sextet_value(s[2])->0;
    let d = sextet_value(s[3])->0;
    let one = seq![(a * 4 + b / 16) as u8];
    let two = if s[2] != 0x3d {
        seq![(b % 16 * 16 + c / 4) as u8]
    } else {
        Seq::empty()
    };
    let three = if s[3] != 0x3d {
        seq![(c % 4 * 64 + d) as u8]
    } else {
        Seq::empty()
    };
    one + two + three
}

/// Groups of four characters; `None` for a character outside the alphabet.
pub open spec fn groups_bytes(s: Seq<u8>) -> Option<Seq<u8>>
    decreases s.len(),
{
    if s.len() < 4 {
        Some(Seq::empty())
    } else if sextet_value(s[0]) is None || sextet_value(s[1]) is None || sextet_value(s[2]) is None
        || sextet_value(s[3]) is None {
        None
    } else {
        match groups_bytes(s.skip(4)) {
            Some(rest) => Some(group_bytes(s) + rest),
            None => None,
        }
    }
}

/// What a Base64 text stands for.
pub open spec fn b64_bytes(s: Seq<u8>) -> Option<Seq<u8>> {
    let clean = without_space(s);
    if clean.len() % 4 != 0 {
        None
    } else {
        groups_bytes(clean)
    }
}

fn sextet(b: u8) -> (r: Option<u8>)
    ensures
        match r {
            Some(v) => sextet_value(b) == Some(v as int) && v < 64,
            None => sextet_value(b) is None,
        },
{
    if 0x41 <= b && b <= 0x5a {
        Some(b - 0x41)
    } else if 0x61 <= b && b <= 0x7a {
        Some(b - 0x61 + 26)
    } else if 0x30 <= b && b <= 0x39 {
        Some(b - 0x30 + 52)
    } else if b == 0x2b {
        Some(62)
    } else if b == 0x2f {
        Some(63)
    } else if b == 0x3d {
        Some(0)
    } else {
        None
    }
}

pub fn b64_decode(s: &str) -> (r: Option<Vec<u8>>)
    ensures
        image::opt_bytes(r) == b64_bytes(vstd::utf8::encode_utf8(s@)),
{
    let raw = s.as_bytes();
    let mut clean: Vec<u8> = Vec::new();
    let mut k: usize = 0;
    assert(raw@.take(0) == Seq::<u8>::empty());
    while k < raw.len()
        invariant
            k <= raw@.len(),
            clean@ == without_space(raw@.take(k as int)),
        decreases raw.len() - k,
    {
        let b = raw[k];
        assert(raw@.take(k + 1).drop_last() == raw@.take(k as int));
        if !(b == 0x20 || b == 0x09 || b == 0x0a || b == 0x0c || b == 0x0d) {
            clean.push(b);
        }
        k += 1;
    }
    assert(raw@.take(k as int) == raw@);
    let n: usize = clean.len();
    if n % 4 != 0 {
        return None;
    }
    let mut out: Vec<u8> = Vec::new();
    let mut i: usize = 0;
    assert(clean@.skip(0) == clean@);
    while n - i >= 4
        invariant
            n == clean@.len(),
            i <= n,
            n % 4 == 0,
            clean@ == without_space(vstd::utf8::encode_utf8(s@)),
            match groups_bytes(clean@.skip(i as int)) {
                Some(rest) => groups_bytes(clean@) == Some(out@ + rest),
                None => groups_bytes(clean@) is None,
            },
        decreases n - i,
    {
        let ghost tail = clean@.skip(i as int);
        let ghost before = out@;
        let a: u8 = match sextet(clean[i]) {
            Some(v) => v,
            None => {
                return None;
            },
        };
        let b: u8 = match sextet(clean[i + 1]) {
            Some(v) => v,
            None => {
                return None;
            },
        };
        let c: u8 = match sextet(clean[i + 2]) {
            Some(v) => v,
            None => {
                return None;
            },
        };
        let d: u8 = match sextet(clean[i + 3]) {
            Some(v) => v,
            None => {
                return None;
            },
        };
        out.push(a * 4 + b / 16);
        if clean[i + 2] != 0x3d {
            out.push(b % 16 * 16 + c / 4);
        }
        if clean[i + 3] != 0x3d {
            out.push(c % 4 * 64 + d);
        }
        proof {
            assert(out@ =~= before + group_bytes(tail));
            assert(tail.skip(4) == clean@.skip(i + 4));
            if let Some(rest) = groups_bytes(tail.skip(4)) {
                assert(before + (group_bytes(tail) + rest) =~= out@ + rest);
            }
        }
        i += 4;
    }
    assert(out@ + Seq::<u8>::empty() =~= out@);
    Some(out)
}

// ---------------------------------------------------------------------- laws

proof fn lemma_sextet(v: nat)
    requires
        v < 64,
    ensures
        sextet_value(crypto::sextet_char(v) as u8) == Some(v as int),
        crypto::sextet_char(v) as u8 != 0x3d,
        !is_space(crypto::sextet_char(v) as u8),
        '\0' <= crypto::sextet_char(v) <= '\u{7f}',
{
}

spec fn bytes_of(s: Seq<char>) -> Seq<u8> {
    s.map_values(|c: char| c as u8)
}

proof fn lemma_base64_ascii(data: Seq<u8>)
    ensures
        forall|i: int|
            0 <= i < crypto::base64_text(data).len() ==> '\0' <= (#[trigger] crypto::base64_text(
                data,
            )[i]) <= '\u{7f}' && !is_space(crypto::base64_text(data)[i] as u8),
        crypto::base64_text(data).len() % 4 == 0,
    decreases data.len(),
{
    let t = crypto::base64_text(data);
    if data.len() == 0 {
    } else {
        let a = data[0] as nat;
        let b = if data.len() > 1 {
            data[1] as nat
        } else {
            0
        };
        let c = if data.len() > 2 {
            data[2] as nat
        } else {
            0
        };
        lemma_sextet(a / 4);
        lemma_sextet(a % 4 * 16 + b / 16);
        lemma_sextet(b % 16 * 4 + c / 64);
        lemma_sextet(c % 64);
        if data.len() > 2 {
            let rest = crypto::base64_text(data.skip(3));
            lemma_base64_ascii(data.skip(3));
            let q = crypto::quad(data[0], data[1], data[2]);
            assert forall|i: int| 0 <= i < t.len() implies '\0' <= (#[trigger] t[i]) <= '\u{7f}'
                && !is_space(t[i] as u8) by {
                if i >= 4 {
                    assert(t[i] == rest[i - 4]);
                } else {
                    assert(t[i] == q[i]);
                }
            }
        }
    }
}

proof fn lemma_without_space_same(s: Seq<u8>)
    requires
        forall|i: int| 0 <= i < s.len() ==> !is_space(#[trigger] s[i]),
    ensures
        without_space(s) == s,
    decreases s.len(),
{
    if s.len() > 0 {
        lemma_without_space_same(s.drop_last());
        assert(s.drop_last().push(s.last()) =~= s);
    }
}

/// The characters of one to three bytes decode to them.
proof fn lemma_group(a: u8, b: u8, c: u8, n: int, s: Seq<u8>)
    requires
        1 <= n <= 3,
        s.len() >= 4,
        n < 3 ==> c == 0,
        n < 2 ==> b == 0,
        s[0] == crypto::sextet_char(a as nat / 4) as u8,
        s[1] == crypto::sextet_char(a as nat % 4 * 16 + b as nat / 16) as u8,
        s[2] == if n >= 2 {
            crypto::sextet_char(b as nat % 16 * 4 + c as nat / 64) as u8
        } else {
            0x3d
        },
        s[3] == if n >= 3 {
            crypto::sextet_char(c as nat % 64) as u8
        } else {
            0x3d
        },
    ensures
        sextet_value(s[0]) is Some,
        sextet_value(s[1]) is Some,
        sextet_value(s[2]) is Some,
        sextet_value(s[3]) is Some,
        group_bytes(s) == seq![a, b, c].take(n),
{
    lemma_sextet(a as nat / 4);
    lemma_sextet(a as nat % 4 * 16 + b as nat / 16);
    lemma_sextet(b as nat % 16 * 4 + c as nat / 64);
    lemma_sextet(c as nat % 64);
    let x = a as int % 4 * 16 + b as int / 16;
    assert(a as int / 4 * 4 + x / 16 == a);
    let y = b as int % 16 * 4 + c as int / 64;
    assert(x % 16 * 16 + y / 4 == b);
    assert(y % 4 * 64 + c as int % 64 == c);
    assert(group_bytes(s) =~= seq![a, b, c].take(n));
}

proof fn lemma_groups_of_base64(data: Seq<u8>)
    ensures
        groups_bytes(bytes_of(crypto::base64_text(data))) == Some(data),
    decreases data.len(),
{
    let t = bytes_of(crypto::base64_text(data));
    if data.len() == 0 {
        assert(t.len() == 0);
        assert(data =~= Seq::<u8>::empty());
    } else if data.len() == 1 {
        lemma_group(data[0], 0, 0, 1, t);
        assert(t.len() == 4);
        assert(groups_bytes(t.skip(4)) == Some(Seq::<u8>::empty()));
        assert(group_bytes(t) + Seq::<u8>::empty() =~= data);
        assert(groups_bytes(t) == Some(group_bytes(t) + Seq::<u8>::empty()));
    } else if data.len() == 2 {
        lemma_group(data[0], data[1], 0, 2, t);
        assert(t.len() == 4);
        assert(groups_bytes(t.skip(4)) == Some(Seq::<u8>::empty()));
        assert(group_bytes(t) + Seq::<u8>::empty() =~= data);
        assert(groups_bytes(t) == Some(group_bytes(t) + Seq::<u8>::empty()));
    } else {
        lemma_group(data[0], data[1], data[2], 3, t);
        let rest = data.skip(3);
        assert(t.skip(4) =~= bytes_of(crypto::base64_text(rest)));
        lemma_groups_of_base64(rest);
        assert(group_bytes(t) + rest =~= data);
        assert(groups_bytes(t) == Some(group_bytes(t) + rest));
    }
}

/// Decoding what was encoded gives the bytes back.
pub proof fn law_decode_encoded(data: Seq<u8>)
    ensures
        b64_bytes(vstd::utf8::encode_utf8(crypto::base64_text(data))) == Some(data),
{
    let t = crypto::base64_text(data);
    lemma_base64_ascii(data);
    vstd::utf8::is_ascii_chars_encode_utf8(t);
    let e = vstd::utf8::encode_utf8(t);
    assert(e =~= bytes_of(t));
    assert forall|i: int| 0 <= i < e.len() implies !is_space(#[trigger] e[i]) by {
        assert(e[i] == t[i] as u8);
    }
    lemma_without_space_same(e);
    lemma_groups_of_base64(data);
}

/// White space anywhere in a text changes nothing of what it stands for.
pub proof fn law_white_space_is_skipped(front: Seq<u8>, space: u8, back: Seq<u8>)
    requires
        space == ' ' as u8 || space == '\n' as u8 || space == '\r' as u8 || space == '\t' as u8 || space
            == 12,
    ensures
        b64_bytes(front + seq![space] + back) == b64_bytes(front + back),
{
    lemma_without_space_concat(front + seq![space], back);
    lemma_without_space_concat(front, seq![space]);
    lemma_without_space_concat(front, back);
    assert(seq![space].drop_last() =~= Seq::empty());
    assert(seq![space].last() == space && is_space(space));
    assert(without_space(Seq::<u8>::empty()) =~= Seq::empty());
    assert(without_space(seq![space]) =~= Seq::empty());
    assert(without_space(front) + Seq::<u8>::empty() =~= without_space(front));
}

proof fn lemma_without_space_concat(a: Seq<u8>, b: Seq<u8>)
    ensures
        without_space(a + b) == without_space(a) + without_space(b),
    decreases b.len(),
{
    if b.len() == 0 {
        assert(a + b =~= a);
        assert(without_space(a) + without_space(b) =~= without_space(a));
    } else {
        lemma_without_space_concat(a, b.drop_last());
        assert((a + b).drop_last() =~= a + b.drop_last());
        assert(without_space(a + b) =~= without_space(a) + without_space(b));
    }
}

/// A text of whole groups is refused for one character outside the alphabet, and
/// any other length is refused.
pub proof fn law_other_texts_are_refused(s: Seq<u8>, k: int)
    requires
        forall|i: int| 0 <= i < s.len() ==> #[trigger] s[i] > 32,
        s.len() % 4 != 0 || (0 <= k < s.len() && !is_sextet(s[k])),
    ensures
        b64_bytes(s) is None,
{
    assert forall|i: int| 0 <= i < s.len() implies !is_space(#[trigger] s[i]) by {}
    lemma_without_space_same(s);
    if s.len() % 4 == 0 {
        lemma_bad_group(s, k);
    }
}

/// A character of the alphabet, or the padding.
pub open spec fn is_sextet(b: u8) -> bool {
    65 <= b <= 90 || 97 <= b <= 122 || 48 <= b <= 57 || b == 43 || b == 47 || b == 61
}

proof fn lemma_bad_group(s: Seq<u8>, k: int)
    requires
        s.len() % 4 == 0,
        0 <= k < s.len(),
        !is_sextet(s[k]),
    ensures
        groups_bytes(s) is None,
    decreases s.len(),
{
    if k >= 4 {
        assert(s.skip(4)[k - 4] == s[k]);
        lemma_bad_group(s.skip(4), k - 4);
    }
}

} // verus!
