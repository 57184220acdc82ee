//! The AES-128 block cipher, encryption only.

use vstd::prelude::*;

verus! {

/// The substitution table of the cipher.
pub const SBOX: [u8; 256] = [
    0x63, 0x7c, 0x77, 0x7b, 0xf2, 0x6b, 0x6f, 0xc5, 0x30, 0x01, 0x67, 0x2b, 0xfe, 0xd7, 0xab, 0x76,
    0xca, 0x82, 0xc9, 0x7d, 0xfa, 0x59, 0x47, 0xf0, 0xad, 0xd4, 0xa2, 0xaf, 0x9c, 0xa4, 0x72, 0xc0,
    0xb7, 0xfd, 0x93, 0x26, 0x36, 0x3f, 0xf7, 0xcc, 0x34, 0xa5, 0xe5, 0xf1, 0x71, 0xd8, 0x31, 0x15,
    0x04, 0xc7, 0x23, 0xc3, 0x18, 0x96, 0x05, 0x9a, 0x07, 0x12, 0x80, 0xe2, 0xeb, 0x27, 0xb2, 0x75,
    0x09, 0x83, 0x2c, 0x1a, 0x1b, 0x6e, 0x5a, 0xa0, 0x52, 0x3b, 0xd6, 0xb3, 0x29, 0xe3, 0x2f, 0x84,
    0x53, 0xd1, 0x00, 0xed, 0x20, 0xfc, 0xb1, 0x5b, 0x6a, 0xcb, 0xbe, 0x39, 0x4a, 0x4c, 0x58, 0xcf,
    0xd0, 0xef, 0xaa, 0xfb, 0x43, 0x4d, 0x33, 0x85, 0x45, 0xf9, 0x02, 0x7f, 0x50, 0x3c, 0x9f, 0xa8,
    0x51, 0xa3, 0x40, 0x8f, 0x92, 0x9d, 0x38, 0xf5, 0xbc, 0xb6, 0xda, 0x21, 0x10, 0xff, 0xf3, 0xd2,
    0xcd, 0x0c, 0x13, 0xec, 0x5f, 0x97, 0x44, 0x17, 0xc4, 0xa7, 0x7e, 0x3d, 0x64, 0x5d, 0x19, 0x73,
    0x60, 0x81, 0x4f, 0xdc, 0x22, 0x2a, 0x90, 0x88, 0x46, 0xee, 0xb8, 0x14, 0xde, 0x5e, 0x0b, 0xdb,
    0xe0, 0x32, 0x3a, 0x0a, 0x49, 0x06, 0x24, 0x5c, 0xc2, 0xd3, 0xac, 0x62, 0x91, 0x95, 0xe4, 0x79,
    0xe7, 0xc8, 0x37, 0x6d, 0x8d, 0xd5, 0x4e, 0xa9, 0x6c, 0x56, 0xf4, 0xea, 0x65, 0x7a, 0xae, 0x08,
    0xba, 0x78, 0x25, 0x2e, 0x1c, 0xa6, 0xb4, 0xc6, 0xe8, 0xdd, 0x74, 0x1f, 0x4b, 0xbd, 0x8b, 0x8a,
    0x70, 0x3e, 0xb5, 0x66, 0x48, 0x03, 0xf6, 0x0e, 0x61, 0x35, 0x57, 0xb9, 0x86, 0xc1, 0x1d, 0x9e,
    0xe1, 0xf8, 0x98, 0x11, 0x69, 0xd9, 0x8e, 0x94, 0x9b, 0x1e, 0x87, 0xe9, 0xce, 0x55, 0x28, 0xdf,
    0x8c, 0xa1, 0x89, 0x0d, 0xbf, 0xe6, 0x42, 0x68, 0x41, 0x99, 0x2d, 0x0f, 0xb0, 0x54, 0xbb, 0x16,
];

/// The round constants of the key schedule.
pub const RCON: [u8; 11] = [
    0x00, 0x01, 0x02, 0x04, 0x08, 0x10, 0x20, 0x40, 0x80, 0x1b, 0x36,
];


// --------------------------------------------------------------------- model

/// Doubling in the field of the cipher.
pub open spec fn doubled(a: u8) -> u8 {
    if a >= 128 {
        ((a * 2 - 256) as u8) ^ 0x1b
    } else {
        (a * 2) as u8
    }
}

pub open spec fn substituted(b: Seq<u8>) -> Seq<u8> {
    Seq::new(16, |i: int| SBOX@[b[i] as int])
}

/// Row `r` of the column-major state moves left by `r` columns.
pub open spec fn rows_shifted(b: Seq<u8>) -> Seq<u8> {
    Seq::new(16, |i: int| b[(i + 4 * (i % 4)) % 16])
}

/// Entry `k` places below entry `i` in the same column, wrapping round.
pub open spec fn below(b: Seq<u8>, i: int, k: int) -> u8 {
    b[i / 4 * 4 + (i % 4 + k) % 4]
}

pub open spec fn mixed(a: u8, b: u8, c: u8, d: u8) -> u8 {
    doubled(a) ^ (doubled(b) ^ b) ^ c ^ d
}

/// Each entry becomes twice itself, plus three times the one below it, plus
/// the other two of the column.
pub open spec fn columns_mixed(b: Seq<u8>) -> Seq<u8> {
    Seq::new(16, |i: int| mixed(below(b, i, 0), below(b, i, 1), below(b, i, 2), below(b, i, 3)))
}

pub open spec fn xored(a: Seq<u8>, b: Seq<u8>) -> Seq<u8> {
    Seq::new(16, |i: int| a[i] ^ b[i])
}

/// Byte `j` of the key schedule.
pub open spec fn schedule(key: Seq<u8>, j: int) -> u8
    decreases j,
{
    if j < 16 {
        key[j]
    } else if j % 16 == 0 {
        schedule(key, j - 16) ^ (SBOX@[schedule(key, j - 3) as int] ^ RCON@[j / 16])
    } else if j % 16 < 3 {
        schedule(key, j - 16) ^ SBOX@[schedule(key, j - 3) as int]
    } else if j % 16 == 3 {
        schedule(key, j - 16) ^ SBOX@[schedule(key, j - 7) as int]
    } else {
        schedule(key, j - 16) ^ schedule(key, j - 4)
    }
}

/// The whole key schedule: eleven round keys.
pub open spec fn expanded(key: Seq<u8>) -> Seq<u8> {
    Seq::new(176, |j: int| schedule(key, j))
}

pub open spec fn round_key(rk: Seq<u8>, round: int) -> Seq<u8> {
    rk.subrange(16 * round, 16 * round + 16)
}

/// The state after the first key and `n` full rounds.
pub open spec fn rounds(rk: Seq<u8>, block: Seq<u8>, n: int) -> Seq<u8>
    decreases n,
{
    if n <= 0 {
        xored(block, round_key(rk, 0))
    } else {
        xored(columns_mixed(rows_shifted(substituted(rounds(rk, block, n - 1)))), round_key(rk, n))
    }
}

/// AES-128 of one block: nine full rounds and one without column mixing.
pub open spec fn cipher(rk: Seq<u8>, block: Seq<u8>) -> Seq<u8> {
    xored(rows_shifted(substituted(rounds(rk, block, 9))), round_key(rk, 10))
}

// ---------------------------------------------------------------------- code

fn xtime(a: u8) -> (r: u8)
    ensures
        r == doubled(a),
{
    if a >= 128 {
        ((a as u16 * 2 - 256) as u8) ^ 0x1b
    } else {
        a * 2
    }
}

/// The whole key schedule.
pub fn expand_key(key: &[u8]) -> (w: [u8; 176])
    requires
        key@.len() >= 16,
    ensures
        w@ =~= expanded(key@),
{
    let mut w: [u8; 176] = [0u8; 176];
    let mut i: usize = 0;
    while i < 176
        invariant
            i <= 176,
            key@.len() >= 16,
            forall|j: int| 0 <= j < i ==> #[trigger] w@[j] == schedule(key@, j),
        decreases 176 - i,
    {
        let v: u8 = if i < 16 {
            key[i]
        } else if i % 16 == 0 {
            w[i - 16] ^ (SBOX[w[i - 3] as usize] ^ RCON[i / 16])
        } else if i % 16 < 3 {
            w[i - 16] ^ SBOX[w[i - 3] as usize]
        } else if i % 16 == 3 {
            w[i - 16] ^ SBOX[w[i - 7] as usize]
        } else {
            w[i - 16] ^ w[i - 4]
        };
        w[i] = v;
        i += 1;
    }
    w
}

fn add_round_key(block: &[u8; 16], rk: &[u8; 176], round: usize) -> (r: [u8; 16])
    requires
        round <= 10,
    ensures
        r@ =~= xored(block@, round_key(rk@, round as int)),
{
    let mut out: [u8; 16] = [0u8; 16];
    let mut i: usize = 0;
    while i < 16
        invariant
            i <= 16,
            round <= 10,
            forall|j: int| 0 <= j < i ==> #[trigger] out@[j] == block@[j] ^ rk@[16 * round + j],
        decreases 16 - i,
    {
        out[i] = block[i] ^ rk[16 * round + i];
        i += 1;
    }
    out
}

fn sub_bytes(block: &[u8; 16]) -> (r: [u8; 16])
    ensures
        r@ =~= substituted(block@),
{
    let mut out: [u8; 16] = [0u8; 16];
    let mut i: usize = 0;
    while i < 16
        invariant
            i <= 16,
            forall|j: int| 0 <= j < i ==> #[trigger] out@[j] == SBOX@[block@[j] as int],
        decreases 16 - i,
    {
        out[i] = SBOX[block[i] as usize];
        i += 1;
    }
    out
}

fn shift_rows(block: &[u8; 16]) -> (r: [u8; 16])
    ensures
        r@ =~= rows_shifted(block@),
{
    let mut out: [u8; 16] = [0u8; 16];
    let mut i: usize = 0;
    while i < 16
        invariant
            i <= 16,
            forall|j: int| 0 <= j < i ==> #[trigger] out@[j] == block@[(j + 4 * (j % 4)) % 16],
        decreases 16 - i,
    {
        out[i] = block[(i + 4 * (i % 4)) % 16];
        i += 1;
    }
    out
}

fn mix_columns(block: &[u8; 16]) -> (r: [u8; 16])
    ensures
        r@ =~= columns_mixed(block@),
{
    let mut out: [u8; 16] = [0u8; 16];
    let mut i: usize = 0;
    while i < 16
        invariant
            i <= 16,
            forall|j: int|
                0 <= j < i ==> #[trigger] out@[j] == mixed(
                    below(block@, j, 0),
                    below(block@, j, 1),
                    below(block@, j, 2),
                    below(block@, j, 3),
                ),
        decreases 16 - i,
    {
        let c: usize = i / 4 * 4;
        let r: usize = i % 4;
        let a0 = block[c + r];
        let a1 = block[c + (r + 1) % 4];
        let a2 = block[c + (r + 2) % 4];
        let a3 = block[c + (r + 3) % 4];
        assert(a0 == below(block@, i as int, 0));
        out[i] = xtime(a0) ^ (xtime(a1) ^ a1) ^ a2 ^ a3;
        i += 1;
    }
    out
}

/// One block under an expanded key.
pub fn encrypt_block(block: &[u8; 16], rk: &[u8; 176]) -> (r: [u8; 16])
    ensures
        r@ == cipher(rk@, block@),
{
    let mut b = add_round_key(block, rk, 0);
    let mut round: usize = 1;
    while round < 10
        invariant
            1 <= round <= 10,
            b@ == rounds(rk@, block@, round - 1),
        decreases 10 - round,
    {
        let s = sub_bytes(&b);
        let h = shift_rows(&s);
        let m = mix_columns(&h);
        b = add_round_key(&m, rk, round);
        round += 1;
    }
    let s = sub_bytes(&b);
    let h = shift_rows(&s);
    add_round_key(&h, rk, 10)
}

} // verus!
