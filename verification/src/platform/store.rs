//! Small values that outlive a session, one file each.

use vstd::prelude::*;
use crate::text;

verus! {

/// Where the files lie.
pub const STORE_DIR: &'static str = "ux0:/data/yunyin/store";

/// A character that a key may hold.
pub open spec fn key_char(c: char) -> bool {
    text::is_alnum(c) || c == '-' || c == '_'
}

/// The key without every other character.
pub open spec fn safe_key(key: Seq<char>) -> Seq<char> {
    key.filter(|c: char| key_char(c))
}

pub fn sanitize(key: &str) -> (r: String)
    ensures
        r@ == safe_key(key@),
{
    let cs = text::chars_of(key);
    let n: usize = cs.len();
    let mut out: Vec<char> = Vec::new();
    let mut i: usize = 0;
    assert(cs@.take(0) =~= Seq::empty());
    assert(Seq::<char>::empty().filter(|c: char| key_char(c)) =~= Seq::empty()) by {
        reveal(Seq::filter);
    }
    while i < n
        invariant
            i <= n,
            n == cs@.len(),
            cs@ == key@,
            out@ == safe_key(cs@.take(i as int)),
        decreases n - i,
    {
        let c = cs[i];
        assert(cs@.take(i + 1).drop_last() =~= cs@.take(i as int));
        assert(cs@.take(i + 1).last() == c);
        proof {
            reveal(Seq::filter);
        }
        if text::alnum(c) || c == '-' || c == '_' {
            out.push(c);
        }
        i += 1;
    }
    assert(cs@.take(n as int) =~= cs@);
    text::text_of(out.as_slice())
}

/// The file of a key.
pub open spec fn file_of(key: Seq<char>) -> Seq<char> {
    "ux0:/data/yunyin/store/"@ + safe_key(key)
}

pub fn store_path(key: &str) -> (r: String)
    ensures
        r@ == file_of(key@),
{
    let mut s = "ux0:/data/yunyin/store/".to_owned();
    s.append(sanitize(key).as_str());
    s
}

/// A value as it was read; what cannot be read is empty.
pub fn get(data: Option<&[u8]>) -> (r: String)
    ensures
        match data {
            Some(d) => r@ == text::lossy_text(d@) && (vstd::utf8::valid_utf8(d@) ==> r@
                == vstd::utf8::decode_utf8(d@)),
            None => r@ == ""@,
        },
{
    match data {
        Some(d) => text::from_utf8_lossy(d),
        None => "".to_owned(),
    }
}

/// The bytes to write for a value.
pub fn set_bytes(val: &str) -> (r: Vec<u8>)
    ensures
        r@ == vstd::utf8::encode_utf8(val@),
{
    let b = val.as_bytes();
    vstd::slice::slice_to_vec(b)
}

/// Filtering keeps what passes the filter, in order.
proof fn lemma_filter_all(s: Seq<char>)
    requires
        forall|i: int| 0 <= i < s.len() ==> key_char(#[trigger] s[i]),
    ensures
        safe_key(s) == s,
    decreases s.len(),
{
    reveal(Seq::filter);
    if s.len() > 0 {
        lemma_filter_all(s.drop_last());
        assert(s.drop_last().push(s.last()) =~= s);
    }
}

/// The file of a key depends only on its safe characters: a safe key is its own.
pub proof fn law_safe_key_is_stable(key: Seq<char>)
    ensures
        safe_key(safe_key(key)) == safe_key(key),
        file_of(safe_key(key)) == file_of(key),
{
    lemma_filtered_chars(key);
    lemma_filter_all(safe_key(key));
}

proof fn lemma_filtered_chars(key: Seq<char>)
    ensures
        forall|i: int| 0 <= i < safe_key(key).len() ==> key_char(#[trigger] safe_key(key)[i]),
    decreases key.len(),
{
    reveal(Seq::filter);
    if key.len() > 0 {
        lemma_filtered_chars(key.drop_last());
    }
}

/// A key never leaves the directory: no separator, dot or colon is left in it.
pub proof fn law_key_stays_in_store(key: Seq<char>, i: int)
    requires
        0 <= i < safe_key(key).len(),
    ensures
        safe_key(key)[i] != '/',
        safe_key(key)[i] != '\\',
        safe_key(key)[i] != ':',
        safe_key(key)[i] != '.',
{
    lemma_filtered_chars(key);
    assert(key_char(safe_key(key)[i]));
}

/// The bytes that are written for a value read back as that value.
pub proof fn law_written_is_read(val: Seq<char>)
    ensures
        vstd::utf8::valid_utf8(vstd::utf8::encode_utf8(val)),
        vstd::utf8::decode_utf8(vstd::utf8::encode_utf8(val)) == val,
{
    broadcast use vstd::utf8::encode_utf8_valid_utf8;
    broadcast use vstd::utf8::encode_utf8_decode_utf8;

}

} // verus!
