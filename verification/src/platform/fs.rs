//! Directory listings.

use vstd::prelude::*;
use crate::text;

verus! {

/// Bytes that a listing may take.
pub const LIST_BYTES: usize = 262144;

pub open spec fn shorter(a: int, b: int) -> int {
    if a < b {
        a
    } else {
        b
    }
}

/// A listing as the interface reads it: the bytes that the lister wrote, or an
/// empty list where it wrote none or could not be asked, a path with a zero
/// character being one that it cannot be asked for.
pub open spec fn listing(path: Seq<char>, buf: Seq<u8>, n: int) -> Seq<char> {
    if text::has_zero(path) || n <= 0 {
        "[]"@
    } else {
        text::lossy_text(buf.take(shorter(n, buf.len() as int)))
    }
}

pub fn list_dir(path: &str, buf: &[u8], n: i32) -> (r: String)
    ensures
        r@ == listing(path@, buf@, n as int),
{
    if text::contains_zero(path) || n <= 0 {
        return "[]".to_owned();
    }
    let len: usize = buf.len();
    let k: usize = if (n as usize) < len {
        n as usize
    } else {
        len
    };
    let part = vstd::slice::slice_subrange(buf, 0, k);
    assert(part@ =~= buf@.take(shorter(n as int, buf@.len() as int)));
    text::from_utf8_lossy(part)
}

/// The places where music may lie.
pub const ROOTS: &'static str = "[{\"id\":\"app0\",\"path\":\"app0:music\"},{\"id\":\"ux0\",\"path\":\"ux0:\"},{\"id\":\"uma0\",\"path\":\"uma0:\"},{\"id\":\"ur0\",\"path\":\"ur0:\"}]";

pub fn roots_json() -> (r: &'static str)
    ensures
        r@ == ROOTS@,
{
    ROOTS
}

} // verus!
