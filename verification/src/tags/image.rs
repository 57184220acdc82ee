//! Finding a picture inside a block of bytes.

use vstd::prelude::*;

verus! {

/// The largest picture taken from a file.
pub const MAX_ART: usize = 1048576;

pub open spec fn opt_bytes(r: Option<Vec<u8>>) -> Option<Seq<u8>> {
    match r {
        Some(v) => Some(v@),
        None => None,
    }
}

/// A JPEG or PNG signature stands at `i`.
pub open spec fn picture_at(p: Seq<u8>, i: int) -> bool {
    ||| i + 3 < p.len() && p[i] == 0xff && p[i + 1] == 0xd8
    ||| i + 7 < p.len() && p[i] == 0x89 && p[i + 1] == 0x50 && p[i + 2] == 0x4e && p[i + 3] == 0x47
}

/// The bytes from the first signature at or after `i` whose rest is small
/// enough.
pub open spec fn picture_from(p: Seq<u8>, i: int) -> Option<Seq<u8>>
    decreases p.len() - i,
{
    if i + 3 >= p.len() {
        None
    } else if picture_at(p, i) && p.len() - i <= MAX_ART {
        Some(p.skip(i))
    } else {
        picture_from(p, i + 1)
    }
}

pub open spec fn picture_in(p: Seq<u8>) -> Option<Seq<u8>> {
    picture_from(p, 0)
}

/// The picture in `p`, or `p` itself where no signature is found.
pub open spec fn picture_or_all(p: Seq<u8>) -> Seq<u8> {
    match picture_in(p) {
        Some(img) => img,
        None => p,
    }
}

pub fn image_payload(p: &[u8]) -> (r: Option<Vec<u8>>)
    ensures
        opt_bytes(r) == picture_in(p@),
{
    let n: usize = p.len();
    if n < 4 {
        return None;
    }
    let mut i: usize = 0;
    while i < n - 3
        invariant
            n == p@.len(),
            n >= 4,
            i <= n - 3,
            picture_in(p@) == picture_from(p@, i as int),
        decreases n - i,
    {
        let jpeg: bool = p[i] == 0xff && p[i + 1] == 0xd8;
        let png: bool = n - i > 7 && p[i] == 0x89 && p[i + 1] == 0x50 && p[i + 2] == 0x4e && p[i
            + 3] == 0x47;
        if (jpeg || png) && n - i <= MAX_ART {
            let rest = vstd::slice::slice_to_vec(vstd::slice::slice_subrange(p, i, n));
            assert(rest@ =~= p@.skip(i as int));
            return Some(rest);
        }
        i += 1;
    }
    None
}

/// A picture is never larger than the limit and begins with a signature.
pub proof fn law_picture_is_bounded(p: Seq<u8>, i: int)
    requires
        0 <= i,
    ensures
        picture_from(p, i) matches Some(img) ==> img.len() <= MAX_ART && picture_at(img, 0),
    decreases p.len() - i,
{
    if i + 3 < p.len() && !(picture_at(p, i) && p.len() - i <= MAX_ART) {
        law_picture_is_bounded(p, i + 1);
    }
}

pub fn picture_or_rest(p: Vec<u8>) -> (r: Vec<u8>)
    ensures
        r@ == picture_or_all(p@),
{
    match image_payload(p.as_slice()) {
        Some(img) => img,
        None => p,
    }
}

} // verus!
