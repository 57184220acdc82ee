//! Lengths as tag formats store them.

use vstd::prelude::*;

verus! {

/// Four bytes of seven bits each, the highest first.
pub open spec fn synchsafe_of(b: Seq<u8>) -> nat {
    if b.len() < 4 {
        0
    } else {
        (b[0] as nat % 128) * 0x20_0000 + (b[1] as nat % 128) * 0x4000 + (b[2] as nat % 128) * 0x80
            + b[3] as nat % 128
    }
}

/// A big-endian 32-bit number; zero where fewer than four bytes are left.
pub open spec fn be32_of(b: Seq<u8>) -> nat {
    if b.len() < 4 {
        0
    } else {
        b[0] as nat * 0x100_0000 + b[1] as nat * 0x1_0000 + b[2] as nat * 0x100 + b[3] as nat
    }
}

/// A little-endian 32-bit number; zero where fewer than four bytes are left.
pub open spec fn le32_of(b: Seq<u8>) -> nat {
    if b.len() < 4 {
        0
    } else {
        b[0] as nat + b[1] as nat * 0x100 + b[2] as nat * 0x1_0000 + b[3] as nat * 0x100_0000
    }
}

pub fn synchsafe(b: &[u8]) -> (r: usize)
    ensures
        r == synchsafe_of(b@),
        r < 0x1000_0000,
{
    if b.len() < 4 {
        return 0;
    }
    (b[0] % 128) as usize * 0x20_0000 + (b[1] % 128) as usize * 0x4000 + (b[2] % 128) as usize
        * 0x80 + (b[3] % 128) as usize
}

pub fn be32(b: &[u8]) -> (r: usize)
    ensures
        r == be32_of(b@),
{
    if b.len() < 4 {
        return 0;
    }
    b[0] as usize * 0x100_0000 + b[1] as usize * 0x1_0000 + b[2] as usize * 0x100 + b[3] as usize
}

pub fn le32(b: &[u8]) -> (r: usize)
    ensures
        r == le32_of(b@),
{
    if b.len() < 4 {
        return 0;
    }
    b[0] as usize + b[1] as usize * 0x100 + b[2] as usize * 0x1_0000 + b[3] as usize * 0x100_0000
}

/// The position of the first zero byte at or after `i`.
pub open spec fn zero_from(p: Seq<u8>, i: int) -> Option<int>
    decreases p.len() - i,
{
    if i >= p.len() {
        None
    } else if p[i] == 0 {
        Some(i)
    } else {
        zero_from(p, i + 1)
    }
}

pub fn find_zero(p: &[u8], from: usize) -> (r: Option<usize>)
    requires
        from <= p@.len(),
    ensures
        match r {
            Some(i) => zero_from(p@, from as int) == Some(i as int) && from <= i < p@.len(),
            None => zero_from(p@, from as int) is None,
        },
{
    let mut i: usize = from;
    while i < p.len()
        invariant
            from <= i <= p@.len(),
            zero_from(p@, from as int) == zero_from(p@, i as int),
        decreases p.len() - i,
    {
        if p[i] == 0 {
            return Some(i);
        }
        i += 1;
    }
    None
}

/// The position of the first pair of zero bytes, counted in pairs from `i`.
pub open spec fn zero_pair_from(p: Seq<u8>, i: int) -> Option<int>
    decreases p.len() - i,
{
    if i + 1 >= p.len() {
        None
    } else if p[i] == 0 && p[i + 1] == 0 {
        Some(i)
    } else {
        zero_pair_from(p, i + 2)
    }
}

pub fn find_zero_pair(p: &[u8], from: usize) -> (r: Option<usize>)
    requires
        from <= p@.len(),
    ensures
        match r {
            Some(i) => zero_pair_from(p@, from as int) == Some(i as int) && from <= i && i + 1
                < p@.len(),
            None => zero_pair_from(p@, from as int) is None,
        },
{
    let n: usize = p.len();
    let mut i: usize = from;
    while i < n && n - i > 1
        invariant
            n == p@.len(),
            from <= i <= n,
            zero_pair_from(p@, from as int) == zero_pair_from(p@, i as int),
        decreases n - i,
    {
        if p[i] == 0 && p[i + 1] == 0 {
            return Some(i);
        }
        i += 2;
    }
    None
}

} // verus!
