//! Byte-mode QR symbols, versions 1 to 6, error correction level L.
//!
//! They carry one thing: the address that a phone opens to log in.

use vstd::prelude::*;
use crate::provider::netease::reed_solomon;

verus! {

/// Light modules round the symbol.
pub const QUIET: usize = 4;

/// The side of the picture in pixels.
pub const OUT: usize = 256;

// ------------------------------------------------------------------ versions

/// What a version fixes: the side, the data codewords, the check codewords of
/// a block, the number of blocks, and the centre of the alignment pattern
/// (zero for none).
#[derive(Clone, Copy)]
pub struct Ver {
    pub size: usize,
    pub data_cw: usize,
    pub ecc: usize,
    pub blocks: usize,
    pub align: usize,
}

pub open spec fn version_at(v: int) -> Option<Ver> {
    if v == 1 {
        Some(Ver { size: 21, data_cw: 19, ecc: 7, blocks: 1, align: 0 })
    } else if v == 2 {
        Some(Ver { size: 25, data_cw: 34, ecc: 10, blocks: 1, align: 18 })
    } else if v == 3 {
        Some(Ver { size: 29, data_cw: 55, ecc: 15, blocks: 1, align: 22 })
    } else if v == 4 {
        Some(Ver { size: 33, data_cw: 80, ecc: 20, blocks: 1, align: 26 })
    } else if v == 5 {
        Some(Ver { size: 37, data_cw: 108, ecc: 26, blocks: 1, align: 30 })
    } else if v == 6 {
        Some(Ver { size: 41, data_cw: 136, ecc: 18, blocks: 2, align: 34 })
    } else {
        None
    }
}

pub fn version_of(v: usize) -> (r: Option<Ver>)
    ensures
        r == version_at(v as int),
{
    if v == 1 {
        Some(Ver { size: 21, data_cw: 19, ecc: 7, blocks: 1, align: 0 })
    } else if v == 2 {
        Some(Ver { size: 25, data_cw: 34, ecc: 10, blocks: 1, align: 18 })
    } else if v == 3 {
        Some(Ver { size: 29, data_cw: 55, ecc: 15, blocks: 1, align: 22 })
    } else if v == 4 {
        Some(Ver { size: 33, data_cw: 80, ecc: 20, blocks: 1, align: 26 })
    } else if v == 5 {
        Some(Ver { size: 37, data_cw: 108, ecc: 26, blocks: 1, align: 30 })
    } else if v == 6 {
        Some(Ver { size: 41, data_cw: 136, ecc: 18, blocks: 2, align: 34 })
    } else {
        None
    }
}

impl Ver {
    /// One of the six versions.
    pub open spec fn known(self) -> bool {
        exists|v: int| version_at(v) == Some(self)
    }
}

/// The smallest version, from `v` on, whose data codewords hold the mode, the
/// count and `len` bytes: twelve bits and eight for each byte.
pub open spec fn picked_from(len: nat, v: int) -> Option<Ver>
    decreases 7 - v,
{
    if v < 1 || v > 6 {
        None
    } else {
        let ver = version_at(v)->0;
        if 12 + 8 * len <= ver.data_cw * 8 {
            Some(ver)
        } else {
            picked_from(len, v + 1)
        }
    }
}

pub fn pick_version(len: usize) -> (r: Option<Ver>)
    ensures
        r == picked_from(len as nat, 1),
        r matches Some(ver) ==> ver.known() && len + 2 <= ver.data_cw,
{
    let mut v: usize = 1;
    while v <= 6
        invariant
            1 <= v <= 7,
            picked_from(len as nat, 1) == picked_from(len as nat, v as int),
        decreases 7 - v,
    {
        match version_of(v) {
            Some(ver) => {
                assert(version_at(v as int) == Some(ver));
                if len <= ver.data_cw - 2 {
                    return Some(ver);
                }
            },
            None => {
                return None;
            },
        }
        v += 1;
    }
    None
}

/// Data fits if and only if it has at most 134 bytes.
pub proof fn law_capacity(len: nat)
    ensures
        picked_from(len, 1) is Some <==> len <= 134,
{
    reveal_with_fuel(picked_from, 8);
}

// ----------------------------------------------------------------- codewords

/// Half-byte `i` of the bit stream: the byte mode, the count in eight bits, the
/// data, and the terminator.
pub open spec fn half(data: Seq<u8>, i: int) -> int {
    if i == 0 {
        4
    } else if i == 1 {
        data.len() as int / 16
    } else if i == 2 {
        data.len() as int % 16
    } else if i < 3 + 2 * data.len() {
        let b = data[(i - 3) / 2] as int;
        if (i - 3) % 2 == 0 {
            b / 16
        } else {
            b % 16
        }
    } else {
        0
    }
}

/// The data codewords: the bit stream, then the two pad bytes in turn.
pub open spec fn data_codewords(data: Seq<u8>, ver: Ver) -> Seq<u8> {
    Seq::new(
        ver.data_cw as nat,
        |k: int|
            if k < data.len() + 2 {
                (half(data, 2 * k) * 16 + half(data, 2 * k + 1)) as u8
            } else if (k - data.len()) % 2 == 0 {
                0xEC
            } else {
                0x11
            },
    )
}

/// Data block `b`.
pub open spec fn block_of(data: Seq<u8>, ver: Ver, b: int) -> Seq<u8> {
    let per = ver.data_cw as int / ver.blocks as int;
    data_codewords(data, ver).subrange(b * per, (b + 1) * per)
}

/// The codewords of the symbol: the blocks' data interleaved, then their check
/// codewords interleaved.
pub open spec fn codewords(data: Seq<u8>, ver: Ver) -> Seq<u8> {
    let n = ver.blocks as int;
    Seq::new(
        (ver.data_cw + ver.ecc * ver.blocks) as nat,
        |k: int|
            if k < ver.data_cw {
                block_of(data, ver, k % n)[k / n]
            } else {
                reed_solomon::check_of(
                    block_of(data, ver, (k - ver.data_cw) % n),
                    ver.ecc as nat,
                )[(k - ver.data_cw) / n]
            },
    )
}

fn half_at(data: &[u8], i: usize) -> (r: u8)
    requires
        data@.len() <= 134,
        i < 1000,
    ensures
        r == half(data@, i as int),
        r < 16,
{
    if i == 0 {
        4
    } else if i == 1 {
        (data.len() / 16) as u8
    } else if i == 2 {
        (data.len() % 16) as u8
    } else if i < 3 + 2 * data.len() {
        let b = data[(i - 3) / 2];
        if (i - 3) % 2 == 0 {
            b / 16
        } else {
            b % 16
        }
    } else {
        0
    }
}

/// The codewords of the symbol that carries `data`; none where its bits, behind
/// twelve bits of mode and length, do not fit the version.
pub fn encode(data: &[u8], ver: Ver) -> (r: Option<Vec<u8>>)
    requires
        ver.known(),
    ensures
        match r {
            Some(v) => 12 + 8 * data@.len() <= 8 * ver.data_cw && v@ == codewords(data@, ver),
            None => 12 + 8 * data@.len() > 8 * ver.data_cw,
        },
{
    if ver.data_cw < 2 || data.len() > ver.data_cw - 2 {
        return None;
    }
    let mut bytes: Vec<u8> = Vec::new();
    let mut k: usize = 0;
    while k < ver.data_cw
        invariant
            k <= ver.data_cw <= 136,
            data@.len() + 2 <= ver.data_cw,
            bytes@ =~= data_codewords(data@, ver).take(k as int),
        decreases ver.data_cw - k,
    {
        let b: u8 = if k < data.len() + 2 {
            half_at(data, 2 * k) * 16 + half_at(data, 2 * k + 1)
        } else if (k - data.len()) % 2 == 0 {
            0xEC
        } else {
            0x11
        };
        bytes.push(b);
        k += 1;
    }
    assert(bytes@ =~= data_codewords(data@, ver));
    let per: usize = ver.data_cw / ver.blocks;
    assert(ver.data_cw == per * ver.blocks) by {
        if ver.blocks == 2 {
            assert(ver.data_cw == 136);
        } else {
            assert(ver.blocks == 1);
        }
    }
    let mut blocks: Vec<Vec<u8>> = Vec::new();
    let mut eccs: Vec<Vec<u8>> = Vec::new();
    let mut b: usize = 0;
    while b < ver.blocks
        invariant
            b <= ver.blocks <= 2,
            ver.known(),
            ver.data_cw == per * ver.blocks,
            per as int == ver.data_cw as int / ver.blocks as int,
            bytes@ == data_codewords(data@, ver),
            blocks@.len() == b,
            eccs@.len() == b,
            forall|j: int| 0 <= j < b ==> #[trigger] blocks@[j]@ == block_of(data@, ver, j),
            forall|j: int|
                0 <= j < b ==> #[trigger] eccs@[j]@ == reed_solomon::check_of(
                    block_of(data@, ver, j),
                    ver.ecc as nat,
                ),
        decreases ver.blocks - b,
    {
        assert(b * per + per <= ver.data_cw && (b + 1) * per == b * per + per) by (nonlinear_arith)
            requires
                ver.data_cw == per * ver.blocks,
                b < ver.blocks,
        ;
        let start: usize = b * per;
        let part = vstd::slice::slice_to_vec(
            vstd::slice::slice_subrange(bytes.as_slice(), start, start + per),
        );
        assert(part@ =~= block_of(data@, ver, b as int));
        eccs.push(reed_solomon::rs(part.as_slice(), ver.ecc));
        blocks.push(part);
        b += 1;
    }
    let mut out: Vec<u8> = Vec::new();
    assert(ver.data_cw <= 136 && ver.ecc <= 26 && 1 <= ver.blocks <= 2);
    assert(0 <= ver.ecc * ver.blocks <= 52) by (nonlinear_arith)
        requires
            ver.ecc <= 26,
            ver.blocks <= 2,
    ;
    let total: usize = ver.data_cw + ver.ecc * ver.blocks;
    let ghost want = codewords(data@, ver);
    let mut i: usize = 0;
    proof {
        reed_solomon::lemma_check_len(block_of(data@, ver, 0), ver.ecc as nat);
        reed_solomon::lemma_check_len(block_of(data@, ver, 1), ver.ecc as nat);
    }
    while i < total
        invariant
            i <= total,
            ver.known(),
            total == ver.data_cw + ver.ecc * ver.blocks,
            per as int == ver.data_cw as int / ver.blocks as int,
            want == codewords(data@, ver),
            1 <= ver.blocks <= 2,
            ver.data_cw == per * ver.blocks,
            blocks@.len() == ver.blocks,
            eccs@.len() == ver.blocks,
            bytes@ == data_codewords(data@, ver),
            forall|j: int| 0 <= j < ver.blocks ==> #[trigger] blocks@[j]@ == block_of(data@, ver, j),
            forall|j: int|
                0 <= j < ver.blocks ==> #[trigger] eccs@[j]@ == reed_solomon::check_of(
                    block_of(data@, ver, j),
                    ver.ecc as nat,
                ),
            forall|j: int| 0 <= j < ver.blocks ==> #[trigger] eccs@[j]@.len() == ver.ecc,
            out@ =~= want.take(i as int),
        decreases total - i,
    {
        if i < ver.data_cw {
            let which: usize = i % ver.blocks;
            let at: usize = i / ver.blocks;
            assert(at < per) by (nonlinear_arith)
                requires
                    i < per * ver.blocks,
                    at == i / ver.blocks,
                    ver.blocks > 0,
            ;
            assert(blocks@[which as int]@.len() == per) by {
                assert(which * per + per <= ver.data_cw && (which + 1) * per == which * per + per)
                    by (nonlinear_arith)
                    requires
                        ver.data_cw == per * ver.blocks,
                        which < ver.blocks,
                ;
            }
            out.push(blocks[which][at]);
        } else {
            let j: usize = i - ver.data_cw;
            let which: usize = j % ver.blocks;
            let at: usize = j / ver.blocks;
            assert(at < ver.ecc) by (nonlinear_arith)
                requires
                    j < ver.ecc * ver.blocks,
                    at == j / ver.blocks,
                    ver.blocks > 0,
            ;
            out.push(eccs[which][at]);
        }
        assert(out@.last() == want[i as int]);
        i += 1;
    }
    Some(out)
}

// ---------------------------------------------------------- function modules

/// A finder pattern with its separator: a ring, a gap, and a square.
pub open spec fn finder(dx: int, dy: int) -> bool {
    &&& 0 <= dx <= 6
    &&& 0 <= dy <= 6
    &&& (dx == 0 || dx == 6 || dy == 0 || dy == 6 || (2 <= dx <= 4 && 2 <= dy <= 4))
}

/// Whether a module is within two of the alignment centre.
pub open spec fn near(align: int, x: int, y: int) -> bool {
    align > 0 && align - 2 <= x <= align + 2 && align - 2 <= y <= align + 2
}

/// Whether a module lies on the ring round the alignment centre that stays
/// light.
pub open spec fn light_ring(align: int, x: int, y: int) -> bool {
    &&& align - 1 <= x <= align + 1
    &&& align - 1 <= y <= align + 1
    &&& !(x == align && y == align)
}

/// The colour of a function module; `None` where data goes.
pub open spec fn function_at(ver: Ver, x: int, y: int) -> Option<bool> {
    let s = ver.size as int;
    let a = ver.align as int;
    if x <= 7 && y <= 7 {
        Some(finder(x, y))
    } else if x >= s - 8 && y <= 7 {
        Some(finder(x - (s - 7), y))
    } else if x <= 7 && y >= s - 8 {
        Some(finder(x, y - (s - 7)))
    } else if y == 6 {
        Some(x % 2 == 0)
    } else if x == 6 {
        Some(y % 2 == 0)
    } else if near(a, x, y) {
        Some(!light_ring(a, x, y))
    } else if x == 8 && (y <= 8 || y >= s - 8) {
        Some(y == s - 8)
    } else if y == 8 && (x <= 8 || x >= s - 8) {
        Some(x == s - 8)
    } else {
        None
    }
}

fn is_finder(dx: i32, dy: i32) -> (r: bool)
    ensures
        r == finder(dx as int, dy as int),
{
    0 <= dx && dx <= 6 && 0 <= dy && dy <= 6 && (dx == 0 || dx == 6 || dy == 0 || dy == 6 || (2
        <= dx && dx <= 4 && 2 <= dy && dy <= 4))
}

fn function_module(ver: Ver, x: usize, y: usize) -> (r: Option<bool>)
    requires
        ver.known(),
        x < ver.size,
        y < ver.size,
    ensures
        r == function_at(ver, x as int, y as int),
{
    let s: i32 = ver.size as i32;
    let a: i32 = ver.align as i32;
    let x: i32 = x as i32;
    let y: i32 = y as i32;
    if x <= 7 && y <= 7 {
        Some(is_finder(x, y))
    } else if x >= s - 8 && y <= 7 {
        Some(is_finder(x - (s - 7), y))
    } else if x <= 7 && y >= s - 8 {
        Some(is_finder(x, y - (s - 7)))
    } else if y == 6 {
        Some(x % 2 == 0)
    } else if x == 6 {
        Some(y % 2 == 0)
    } else if a > 0 && a - 2 <= x && x <= a + 2 && a - 2 <= y && y <= a + 2 {
        Some(!(a - 1 <= x && x <= a + 1 && a - 1 <= y && y <= a + 1 && !(x == a && y == a)))
    } else if x == 8 && (y <= 8 || y >= s - 8) {
        Some(y == s - 8)
    } else if y == 8 && (x <= 8 || x >= s - 8) {
        Some(x == s - 8)
    } else {
        None
    }
}

// ------------------------------------------------------------ data placement

/// The right column of pair `p`; the column of the vertical timing pattern is
/// stepped over.
pub open spec fn pair_right(s: int, p: int) -> int {
    if s - 1 - 2 * p > 6 {
        s - 1 - 2 * p
    } else {
        s - 2 - 2 * p
    }
}

/// The column of the `n`-th module visited: pairs of columns from the right,
/// up and down in turn, the right module of a row before the left.
pub open spec fn walk_x(s: int, n: int) -> int {
    pair_right(s, n / (2 * s)) - n % (2 * s) % 2
}

pub open spec fn walk_y(s: int, n: int) -> int {
    let row = n % (2 * s) / 2;
    if n / (2 * s) % 2 == 0 {
        s - 1 - row
    } else {
        row
    }
}

/// When a module is visited.
pub open spec fn order(s: int, x: int, y: int) -> int {
    let e = if x > 6 {
        s - 1 - x
    } else {
        s - 2 - x
    };
    let row = if e / 2 % 2 == 0 {
        s - 1 - y
    } else {
        y
    };
    2 * s * (e / 2) + 2 * row + e % 2
}

/// A side that the walk covers evenly.
pub open spec fn walkable(s: int) -> bool {
    s >= 21 && s % 2 == 1
}

/// Every module outside the timing column is visited, at its `order`.
pub proof fn law_walk_visits(s: int, x: int, y: int)
    requires
        walkable(s),
        0 <= x < s,
        x != 6,
        0 <= y < s,
    ensures
        0 <= order(s, x, y) < s * (s - 1),
        walk_x(s, order(s, x, y)) == x,
        walk_y(s, order(s, x, y)) == y,
{
    let e = if x > 6 {
        s - 1 - x
    } else {
        s - 2 - x
    };
    let p = e / 2;
    let row = if p % 2 == 0 {
        s - 1 - y
    } else {
        y
    };
    let n = order(s, x, y);
    let low = 2 * row + e % 2;
    assert(n == p * (2 * s) + low) by (nonlinear_arith)
        requires
            n == 2 * s * p + low,
    ;
    vstd::arithmetic::div_mod::lemma_fundamental_div_mod_converse(n, 2 * s, p, low);
    assert(p <= (s - 3) / 2);
    assert(n < s * (s - 1)) by (nonlinear_arith)
        requires
            n == p * (2 * s) + low,
            low < 2 * s,
            2 * p <= s - 3,
            s >= 21,
    ;
    assert(0 <= p * (2 * s)) by (nonlinear_arith)
        requires
            p >= 0,
            s >= 21,
    ;
}

/// No two visits are to the same module.
pub proof fn law_walk_never_returns(s: int, n: int)
    requires
        walkable(s),
        0 <= n < s * (s - 1),
    ensures
        0 <= walk_x(s, n) < s,
        walk_x(s, n) != 6,
        0 <= walk_y(s, n) < s,
        order(s, walk_x(s, n), walk_y(s, n)) == n,
{
    let p = n / (2 * s);
    let w = n % (2 * s);
    vstd::arithmetic::div_mod::lemma_fundamental_div_mod(n, 2 * s);
    vstd::arithmetic::div_mod::lemma_mod_bound(n, 2 * s);
    assert(p >= 0) by {
        vstd::arithmetic::div_mod::lemma_div_pos_is_pos(n, 2 * s);
    }
    assert(2 * p < s - 1) by (nonlinear_arith)
        requires
            n == 2 * s * p + w,
            0 <= w,
            n < s * (s - 1),
            s >= 21,
    ;
}

/// Whether data goes to the `n`-th module visited.
pub open spec fn takes_data(ver: Ver, n: int) -> bool {
    function_at(ver, walk_x(ver.size as int, n), walk_y(ver.size as int, n)) is None
}

/// How many of the first `n` modules visited take data.
pub open spec fn rank(ver: Ver, n: int) -> int
    decreases n,
{
    if n <= 0 {
        0
    } else {
        rank(ver, n - 1) + if takes_data(ver, n - 1) {
            1int
        } else {
            0int
        }
    }
}

/// Bit `k` of the codewords, the highest bit of each first; light beyond them.
pub open spec fn codeword_bit(cw: Seq<u8>, k: int) -> bool {
    0 <= k / 8 < cw.len() && (cw[k / 8] as int / place(k % 8)) % 2 == 1
}

pub open spec fn place(i: int) -> int {
    if i == 0 {
        128
    } else if i == 1 {
        64
    } else if i == 2 {
        32
    } else if i == 3 {
        16
    } else if i == 4 {
        8
    } else if i == 5 {
        4
    } else if i == 6 {
        2
    } else {
        1
    }
}

fn bit_place(i: usize) -> (r: u8)
    ensures
        r == place(i as int),
        r > 0,
{
    if i == 0 {
        128
    } else if i == 1 {
        64
    } else if i == 2 {
        32
    } else if i == 3 {
        16
    } else if i == 4 {
        8
    } else if i == 5 {
        4
    } else if i == 6 {
        2
    } else {
        1
    }
}

/// What a module holds once the first `n` visits are done; function modules
/// stay light here.
pub open spec fn placed_bit(ver: Ver, cw: Seq<u8>, n: int, x: int, y: int) -> bool {
    let k = order(ver.size as int, x, y);
    function_at(ver, x, y) is None && k < n && codeword_bit(cw, rank(ver, k))
}

pub open spec fn placed_upto(ver: Ver, cw: Seq<u8>, n: int) -> Seq<bool> {
    let s = ver.size as int;
    Seq::new((s * s) as nat, |i: int| placed_bit(ver, cw, n, i % s, i / s))
}

/// The codewords' bits where the walk leaves them.
pub open spec fn placed(ver: Ver, cw: Seq<u8>) -> Seq<bool> {
    placed_upto(ver, cw, ver.size * (ver.size - 1))
}

proof fn lemma_cell(s: int, x: int, y: int)
    requires
        0 <= x < s,
        0 <= y < s,
    ensures
        0 <= y * s + x < s * s,
        (y * s + x) / s == y,
        (y * s + x) % s == x,
{
    vstd::arithmetic::div_mod::lemma_fundamental_div_mod_converse(y * s + x, s, y, x);
    assert(0 <= y * s + x < s * s) by (nonlinear_arith)
        requires
            0 <= x < s,
            0 <= y < s,
    ;
}

proof fn lemma_uncell(s: int, i: int)
    requires
        s > 0,
        0 <= i < s * s,
    ensures
        0 <= i % s < s,
        0 <= i / s < s,
        i / s * s + i % s == i,
{
    vstd::arithmetic::div_mod::lemma_fundamental_div_mod(i, s);
    vstd::arithmetic::div_mod::lemma_mod_bound(i, s);
    assert(s * (i / s) == i / s * s) by (nonlinear_arith);
    assert(i / s < s) by (nonlinear_arith)
        requires
            i < s * s,
            i == i / s * s + i % s,
            0 <= i % s,
            s > 0,
    ;
    vstd::arithmetic::div_mod::lemma_div_pos_is_pos(i, s);
}

proof fn lemma_rank_bound(ver: Ver, n: int)
    requires
        0 <= n,
    ensures
        0 <= rank(ver, n) <= n,
    decreases n,
{
    if n > 0 {
        lemma_rank_bound(ver, n - 1);
    }
}

proof fn lemma_known(ver: Ver)
    requires
        ver.known(),
    ensures
        walkable(ver.size as int),
        21 <= ver.size <= 41,
        ver.size * ver.size <= 1681,
        ver.size * (ver.size - 1) <= 1640,
{
    let s = ver.size as int;
    assert(s * s <= 1681 && s * (s - 1) <= 1640) by (nonlinear_arith)
        requires
            21 <= s <= 41,
    ;
}

/// Walks the symbol and lays the codewords' bits into the modules that take
/// data.
pub fn draw_codewords(cw: &[u8], ver: Ver) -> (r: Vec<bool>)
    requires
        ver.known(),
    ensures
        r@ == placed(ver, cw@),
{
    let s: usize = ver.size;
    let ghost si = s as int;
    proof {
        lemma_known(ver);
    }
    let total: usize = s * (s - 1);
    let mut plane: Vec<bool> = Vec::new();
    let mut c: usize = 0;
    while c < s * s
        invariant
            ver.known(),
            s == ver.size,
            21 <= s,
            s * s <= 1681,
            c <= s * s,
            plane@ =~= placed_upto(ver, cw@, 0).take(c as int),
            plane@.len() == c,
        decreases s * s - c,
    {
        proof {
            lemma_uncell(s as int, c as int);
            lemma_order_nonneg(ver, c as int);
        }
        plane.push(false);
        c += 1;
    }
    assert(plane@ =~= placed_upto(ver, cw@, 0));
    let mut n: usize = 0;
    let mut i: usize = 0;
    while n < total
        invariant
            ver.known(),
            s == ver.size,
            si == s,
            walkable(si),
            21 <= s <= 41,
            s * s <= 1681,
            total == s * (s - 1),
            n <= total <= 1640,
            i == rank(ver, n as int),
            i <= n,
            plane@ == placed_upto(ver, cw@, n as int),
        decreases total - n,
    {
        proof {
            law_walk_never_returns(si, n as int);
        }
        let p: usize = n / (2 * s);
        let w: usize = n % (2 * s);
        assert(2 * p < s - 1) by (nonlinear_arith)
            requires
                n < s * (s - 1),
                p as int == n as int / (2 * s),
                s >= 21,
        ;
        let right: usize = if s - 1 - 2 * p > 6 {
            s - 1 - 2 * p
        } else {
            s - 2 - 2 * p
        };
        let x: usize = right - w % 2;
        let y: usize = if p % 2 == 0 {
            s - 1 - w / 2
        } else {
            w / 2
        };
        assert(x == walk_x(si, n as int));
        assert(y == walk_y(si, n as int));
        proof {
            lemma_cell(si, x as int, y as int);
        }
        let idx: usize = y * s + x;
        if function_module(ver, x, y).is_none() {
            let bit: bool = i / 8 < cw.len() && (cw[i / 8] / bit_place(i % 8)) % 2 == 1;
            assert(bit == codeword_bit(cw@, i as int));
            plane.set(idx, bit);
            i += 1;
        }
        proof {
            let want = placed_upto(ver, cw@, n + 1);
            assert forall|j: int| 0 <= j < si * si implies plane@[j] == want[j] by {
                lemma_uncell(si, j);
                let jx = j % si;
                let jy = j / si;
                if jx != 6 {
                    law_walk_visits(si, jx, jy);
                    if order(si, jx, jy) == n {
                        assert(j == idx);
                    }
                } else {
                    assert(function_at(ver, jx, jy) is Some);
                }
            }
            assert(plane@ =~= want);
        }
        n += 1;
    }
    plane
}

proof fn lemma_order_nonneg(ver: Ver, i: int)
    requires
        0 <= i < ver.size * ver.size,
        ver.known(),
    ensures
        function_at(ver, i % ver.size as int, i / ver.size as int) is Some || order(
            ver.size as int,
            i % ver.size as int,
            i / ver.size as int,
        ) >= 0,
{
    let s = ver.size as int;
    lemma_known(ver);
    lemma_uncell(s, i);
    if i % s != 6 {
        law_walk_visits(s, i % s, i / s);
    }
}

// ------------------------------------------------------------ mask and format

pub open spec fn masks(mask: u8, r: int, c: int) -> bool {
    if mask == 0 {
        (r + c) % 2 == 0
    } else if mask == 1 {
        r % 2 == 0
    } else if mask == 2 {
        c % 3 == 0
    } else if mask == 3 {
        (r + c) % 3 == 0
    } else if mask == 4 {
        (r / 2 + c / 3) % 2 == 0
    } else if mask == 5 {
        (r * c) % 2 + (r * c) % 3 == 0
    } else if mask == 6 {
        ((r * c) % 2 + (r * c) % 3) % 2 == 0
    } else {
        ((r + c) % 2 + (r * c) % 3) % 2 == 0
    }
}

fn mask_bit(mask: u8, r: usize, c: usize) -> (b: bool)
    requires
        r < 256,
        c < 256,
    ensures
        b == masks(mask, r as int, c as int),
{
    assert(0 <= r * c <= 65536) by (nonlinear_arith)
        requires
            0 <= r < 256,
            0 <= c < 256,
    ;
    if mask == 0 {
        (r + c) % 2 == 0
    } else if mask == 1 {
        r % 2 == 0
    } else if mask == 2 {
        c % 3 == 0
    } else if mask == 3 {
        (r + c) % 3 == 0
    } else if mask == 4 {
        (r / 2 + c / 3) % 2 == 0
    } else if mask == 5 {
        (r * c) % 2 + (r * c) % 3 == 0
    } else if mask == 6 {
        ((r * c) % 2 + (r * c) % 3) % 2 == 0
    } else {
        ((r + c) % 2 + (r * c) % 3) % 2 == 0
    }
}

/// `k` steps of the division by the format generator.
pub open spec fn format_rest(data: u16, k: nat) -> u16
    decreases k,
{
    if k == 0 {
        data
    } else {
        let r = format_rest(data, (k - 1) as nat);
        if (r >> 9) & 1 == 1 {
            (r << 1) ^ 0x537
        } else {
            r << 1
        }
    }
}

/// The fifteen format bits of level L and a mask: five of data, ten of check,
/// and the fixed pattern over them.
pub open spec fn format_word(mask: u8) -> u16 {
    let data = (1u16 << 3) | (mask as u16);
    ((data << 10) | (format_rest(data, 10) & 0x3FF)) ^ 0x5412
}

pub fn format_bits(mask: u8) -> (r: u16)
    ensures
        r == format_word(mask),
{
    let data: u16 = (1u16 << 3) | (mask as u16);
    let mut rest: u16 = data;
    let mut k: usize = 0;
    while k < 10
        invariant
            k <= 10,
            rest == format_rest(data, k as nat),
        decreases 10 - k,
    {
        if (rest >> 9) & 1 == 1 {
            rest = (rest << 1) ^ 0x537;
        } else {
            rest = rest << 1;
        }
        k += 1;
    }
    ((data << 10) | (rest & 0x3FF)) ^ 0x5412
}

pub open spec fn word_bit(word: u16, i: int) -> bool {
    (word >> (i as u16)) & 1 == 1
}

/// The colour of a module of the two copies of the format bits, and of the dark
/// module beside them; `None` elsewhere.
pub open spec fn format_at(s: int, word: u16, x: int, y: int) -> Option<bool> {
    if x == 8 && y <= 5 {
        Some(word_bit(word, y))
    } else if x == 8 && y == 7 {
        Some(word_bit(word, 6))
    } else if x == 8 && y == 8 {
        Some(word_bit(word, 7))
    } else if x == 7 && y == 8 {
        Some(word_bit(word, 8))
    } else if x <= 5 && y == 8 {
        Some(word_bit(word, 14 - x))
    } else if x >= s - 8 && y == 8 {
        Some(word_bit(word, s - 1 - x))
    } else if x == 8 && y >= s - 7 {
        Some(word_bit(word, y - (s - 15)))
    } else if x == 8 && y == s - 8 {
        Some(true)
    } else {
        None
    }
}

fn bit_of_word(word: u16, i: usize) -> (r: bool)
    requires
        i < 15,
    ensures
        r == word_bit(word, i as int),
{
    (word >> (i as u16)) & 1 == 1
}

fn format_module(s: usize, word: u16, x: usize, y: usize) -> (r: Option<bool>)
    requires
        21 <= s <= 41,
        x < s,
        y < s,
    ensures
        r == format_at(s as int, word, x as int, y as int),
{
    if x == 8 && y <= 5 {
        Some(bit_of_word(word, y))
    } else if x == 8 && y == 7 {
        Some(bit_of_word(word, 6))
    } else if x == 8 && y == 8 {
        Some(bit_of_word(word, 7))
    } else if x == 7 && y == 8 {
        Some(bit_of_word(word, 8))
    } else if x <= 5 && y == 8 {
        Some(bit_of_word(word, 14 - x))
    } else if x >= s - 8 && y == 8 {
        Some(bit_of_word(word, s - 1 - x))
    } else if x == 8 && y >= s - 7 {
        Some(bit_of_word(word, y - (s - 15)))
    } else if x == 8 && y == s - 8 {
        Some(true)
    } else {
        None
    }
}

/// The format bits take no module away from the data.
pub proof fn law_format_spares_data(ver: Ver, word: u16, x: int, y: int)
    requires
        ver.known(),
        0 <= x < ver.size,
        0 <= y < ver.size,
        format_at(ver.size as int, word, x, y) is Some,
    ensures
        function_at(ver, x, y) is Some,
{
}

// -------------------------------------------------------------------- symbols

/// The colour of one module of the finished symbol.
pub open spec fn module_at(ver: Ver, plane: Seq<bool>, mask: u8, x: int, y: int) -> bool {
    match format_at(ver.size as int, format_word(mask), x, y) {
        Some(dark) => dark,
        None => match function_at(ver, x, y) {
            Some(dark) => dark,
            None => plane[y * ver.size + x] != masks(mask, y, x),
        },
    }
}

/// The symbol under a mask, row by row.
pub open spec fn symbol_of(ver: Ver, plane: Seq<bool>, mask: u8) -> Seq<bool> {
    let s = ver.size as int;
    Seq::new((s * s) as nat, |i: int| module_at(ver, plane, mask, i % s, i / s))
}

fn draw_symbol(ver: Ver, plane: &[bool], mask: u8) -> (r: Vec<bool>)
    requires
        ver.known(),
        plane@.len() == ver.size * ver.size,
    ensures
        r@ == symbol_of(ver, plane@, mask),
{
    let s: usize = ver.size;
    proof {
        lemma_known(ver);
    }
    let word = format_bits(mask);
    let total: usize = s * s;
    let mut out: Vec<bool> = Vec::new();
    let mut i: usize = 0;
    while i < total
        invariant
            ver.known(),
            s == ver.size,
            21 <= s <= 41,
            total == s * s,
            total <= 1681,
            i <= total,
            plane@.len() == total,
            word == format_word(mask),
            out@ =~= symbol_of(ver, plane@, mask).take(i as int),
        decreases total - i,
    {
        proof {
            lemma_uncell(s as int, i as int);
        }
        let x: usize = i % s;
        let y: usize = i / s;
        let dark: bool = match format_module(s, word, x, y) {
            Some(d) => d,
            None => match function_module(ver, x, y) {
                Some(d) => d,
                None => plane[i] != mask_bit(mask, y, x),
            },
        };
        assert(y * s + x == i);
        out.push(dark);
        i += 1;
    }
    out
}

/// Taking the mask off and reading along the walk gives the codewords back.
pub proof fn law_symbol_reads_back(ver: Ver, cw: Seq<u8>, mask: u8, n: int)
    requires
        ver.known(),
        0 <= n < ver.size * (ver.size - 1),
        takes_data(ver, n),
    ensures
        ({
            let s = ver.size as int;
            let x = walk_x(s, n);
            let y = walk_y(s, n);
            (symbol_of(ver, placed(ver, cw), mask)[y * s + x] != masks(mask, y, x))
                == codeword_bit(cw, rank(ver, n))
        }),
{
    let s = ver.size as int;
    let x = walk_x(s, n);
    let y = walk_y(s, n);
    lemma_known(ver);
    law_walk_never_returns(s, n);
    lemma_cell(s, x, y);
    if format_at(s, format_word(mask), x, y) is Some {
        law_format_spares_data(ver, format_word(mask), x, y);
    }
}

// -------------------------------------------------------------------- penalty

/// How long the run at the end of a line is.
pub open spec fn end_run(line: Seq<bool>) -> nat
    decreases line.len(),
{
    if line.len() == 0 {
        0
    } else if line.len() == 1 || line[line.len() - 2] != line.last() {
        1
    } else {
        end_run(line.drop_last()) + 1
    }
}

/// The score of a line: three for a run of five, one for each module more.
pub open spec fn line_score(line: Seq<bool>) -> nat
    decreases line.len(),
{
    if line.len() == 0 {
        0
    } else {
        line_score(line.drop_last()) + if end_run(line) == 5 {
            3nat
        } else if end_run(line) > 5 {
            1nat
        } else {
            0nat
        }
    }
}

/// Every `stride`-th module from `start`, `n` of them.
pub open spec fn line_at(m: Seq<bool>, start: int, stride: int, n: nat) -> Seq<bool> {
    Seq::new(n, |k: int| m[start + k * stride])
}

pub open spec fn rows_score(m: Seq<bool>, s: nat, n: nat) -> nat
    decreases n,
{
    if n == 0 {
        0
    } else {
        rows_score(m, s, (n - 1) as nat) + line_score(line_at(m, (n - 1) * s, 1, s))
    }
}

pub open spec fn columns_score(m: Seq<bool>, s: nat, n: nat) -> nat
    decreases n,
{
    if n == 0 {
        0
    } else {
        columns_score(m, s, (n - 1) as nat) + line_score(line_at(m, n - 1, s as int, s))
    }
}

/// The score of a symbol: its rows and its columns.
pub open spec fn score_of(m: Seq<bool>, s: nat) -> nat {
    rows_score(m, s, s) + columns_score(m, s, s)
}

proof fn lemma_line_score_bound(line: Seq<bool>)
    ensures
        line_score(line) <= 3 * line.len(),
        end_run(line) <= line.len(),
    decreases line.len(),
{
    if line.len() > 0 {
        lemma_line_score_bound(line.drop_last());
    }
}

fn score_line(m: &[bool], start: usize, stride: usize, n: usize) -> (r: u32)
    requires
        0 < n <= 41,
        start + (n - 1) * stride < m@.len(),
        m@.len() <= 1681,
        stride <= 41,
    ensures
        r == line_score(line_at(m@, start as int, stride as int, n as nat)),
        r <= 123,
{
    let mut score: u32 = 0;
    let mut run: u32 = 1;
    let mut k: usize = 1;
    let mut at: usize = start;
    let ghost line = line_at(m@, start as int, stride as int, n as nat);
    proof {
        assert(line.take(1).drop_last() =~= Seq::<bool>::empty());
        assert(end_run(line.take(1)) == 1);
        assert(line_score(line.take(1).drop_last()) == 0);
        assert((n - 1) * stride >= 0) by (nonlinear_arith)
            requires
                n >= 1,
                stride >= 0,
        ;
        assert(0 * stride == 0) by (nonlinear_arith);
    }
    while k < n
        invariant
            1 <= k <= n <= 41,
            m@.len() <= 1681,
            stride <= 41,
            start + (n - 1) * stride < m@.len(),
            at == start + (k - 1) * stride,
            line == line_at(m@, start as int, stride as int, n as nat),
            run == end_run(line.take(k as int)),
            run <= k,
            score == line_score(line.take(k as int)),
            score <= 3 * k,
        decreases n - k,
    {
        assert((k - 1) * stride + stride == k * stride) by (nonlinear_arith);
        assert(k * stride <= (n - 1) * stride) by (nonlinear_arith)
            requires
                k <= n - 1,
                stride >= 0,
        ;
        let next: usize = at + stride;
        let ghost here = line.take(k + 1);
        assert(here.drop_last() =~= line.take(k as int));
        assert(here.len() == k + 1);
        assert(here[k as int] == line[k as int]);
        assert(here[k - 1] == line[k - 1]);
        assert(line[k as int] == m@[start + k * stride]);
        assert(line[k - 1] == m@[start + (k - 1) * stride]);
        assert(here.last() == m@[next as int]);
        assert(here[here.len() - 2] == m@[at as int]);
        if m[next] == m[at] {
            run += 1;
            if run == 5 {
                score += 3;
            } else if run > 5 {
                score += 1;
            }
        } else {
            run = 1;
        }
        at = next;
        k += 1;
    }
    assert(line.take(n as int) =~= line);
    proof {
        lemma_line_score_bound(line);
    }
    score
}

pub fn penalty(m: &[bool], s: usize) -> (r: u32)
    requires
        1 <= s <= 41,
        m@.len() == s * s,
    ensures
        r == score_of(m@, s as nat),
{
    let mut score: u32 = 0;
    let mut n: usize = 0;
    assert(s * s <= 1681) by (nonlinear_arith)
        requires
            1 <= s <= 41,
    ;
    while n < s
        invariant
            n <= s <= 41,
            1 <= s,
            m@.len() == s * s,
            m@.len() <= 1681,
            score == rows_score(m@, s as nat, n as nat),
            score <= 123 * n,
        decreases s - n,
    {
        assert(n * s + (s - 1) * 1 < s * s) by (nonlinear_arith)
            requires
                n < s,
                s >= 1,
        ;
        assert(n * s >= 0) by (nonlinear_arith);
        score += score_line(m, n * s, 1, s);
        n += 1;
    }
    let rows: u32 = score;
    let mut c: usize = 0;
    while c < s
        invariant
            c <= s <= 41,
            1 <= s,
            m@.len() == s * s,
            m@.len() <= 1681,
            rows <= 123 * s,
            score == rows + columns_score(m@, s as nat, c as nat),
            score <= rows + 123 * c,
        decreases s - c,
    {
        assert(c + (s - 1) * s < s * s) by (nonlinear_arith)
            requires
                c < s,
                s >= 1,
        ;
        score += score_line(m, c, s, s);
        c += 1;
    }
    score
}

/// The first of the lowest-scoring masks below `n`.
pub open spec fn best_mask(ver: Ver, plane: Seq<bool>, n: nat) -> u8
    decreases n,
{
    if n <= 1 {
        0
    } else {
        let b = best_mask(ver, plane, (n - 1) as nat);
        let m = (n - 1) as u8;
        if score_of(symbol_of(ver, plane, m), ver.size as nat) < score_of(
            symbol_of(ver, plane, b),
            ver.size as nat,
        ) {
            m
        } else {
            b
        }
    }
}

/// No mask scores lower than the one chosen.
pub proof fn law_best_mask_is_lowest(ver: Ver, plane: Seq<bool>, n: nat, m: u8)
    requires
        1 <= n <= 8,
        m < n,
    ensures
        score_of(symbol_of(ver, plane, best_mask(ver, plane, n)), ver.size as nat) <= score_of(
            symbol_of(ver, plane, m),
            ver.size as nat,
        ),
    decreases n,
{
    if n > 1 && m < n - 1 {
        law_best_mask_is_lowest(ver, plane, (n - 1) as nat, m);
    }
}

/// A finished symbol.
pub struct Symbol {
    pub size: usize,
    pub modules: Vec<bool>,
}

/// The modules of the symbol for `data` in a version.
pub open spec fn matrix_of(data: Seq<u8>, ver: Ver) -> Seq<bool> {
    let plane = placed(ver, codewords(data, ver));
    symbol_of(ver, plane, best_mask(ver, plane, 8))
}

/// The symbol for `data` in the smallest version that holds it.
pub fn matrix(data: &[u8]) -> (r: Option<Symbol>)
    ensures
        match r {
            Some(sym) => picked_from(data@.len(), 1) matches Some(ver) && sym.size == ver.size
                && sym.modules@ == matrix_of(data@, ver) && 21 <= sym.size <= 41
                && sym.modules@.len() == sym.size * sym.size,
            None => picked_from(data@.len(), 1) is None,
        },
{
    let ver = match pick_version(data.len()) {
        Some(v) => v,
        None => {
            return None;
        },
    };
    proof {
        lemma_known(ver);
    }
    let cw = match encode(data, ver) {
        Some(c) => c,
        None => {
            return None;
        },
    };
    let plane = draw_codewords(cw.as_slice(), ver);
    let mut best = draw_symbol(ver, plane.as_slice(), 0);
    let mut best_score = penalty(best.as_slice(), ver.size);
    let mut mask: u8 = 1;
    while mask < 8
        invariant
            ver.known(),
            21 <= ver.size <= 41,
            1 <= mask <= 8,
            plane@.len() == ver.size * ver.size,
            best@ == symbol_of(ver, plane@, best_mask(ver, plane@, mask as nat)),
            best_score == score_of(best@, ver.size as nat),
        decreases 8 - mask,
    {
        let m = draw_symbol(ver, plane.as_slice(), mask);
        let score = penalty(m.as_slice(), ver.size);
        if score < best_score {
            best = m;
            best_score = score;
        }
        mask += 1;
    }
    Some(Symbol { size: ver.size, modules: best })
}

// -------------------------------------------------------------------- picture

/// Whether a pixel is black: it lies on a dark module of the symbol, drawn as
/// large as fits with its quiet zone, in the middle.
pub open spec fn black(m: Seq<bool>, s: int, x: int, y: int) -> bool {
    let scale = 256int / (s + 8);
    let origin = (256 - (s + 8) * scale) / 2;
    let mx = (x - origin) / scale - 4;
    let my = (y - origin) / scale - 4;
    x >= origin && y >= origin && 0 <= mx < s && 0 <= my < s && m[my * s + mx]
}

/// The picture: opaque, black on white, four bytes to a pixel.
pub open spec fn picture_of(m: Seq<bool>, s: int) -> Seq<u8> {
    Seq::new(
        262144,
        |i: int|
            if i % 4 < 3 && black(m, s, i / 4 % 256, i / 4 / 256) {
                0u8
            } else {
                255u8
            },
    )
}

fn is_black(m: &[bool], s: usize, x: usize, y: usize) -> (r: bool)
    requires
        21 <= s <= 41,
        m@.len() == s * s,
        x < 256,
        y < 256,
    ensures
        r == black(m@, s as int, x as int, y as int),
{
    let span: usize = s + 8;
    let scale: usize = 256 / span;
    assert(5 <= scale <= 8) by (nonlinear_arith)
        requires
            scale as int == 256int / span as int,
            29 <= span <= 49,
    ;
    assert(span * scale <= 256) by (nonlinear_arith)
        requires
            scale as int == 256int / span as int,
            29 <= span <= 49,
    ;
    assert(0 <= span * scale) by (nonlinear_arith);
    let origin: usize = (OUT - span * scale) / 2;
    if x < origin || y < origin {
        return false;
    }
    let mx: usize = (x - origin) / scale;
    let my: usize = (y - origin) / scale;
    if mx < QUIET || my < QUIET || mx >= QUIET + s || my >= QUIET + s {
        return false;
    }
    proof {
        lemma_cell(s as int, (mx - 4) as int, (my - 4) as int);
    }
    assert((my - 4) * s <= 1681) by (nonlinear_arith)
        requires
            my - 4 < s,
            s <= 41,
    ;
    assert(0 <= (my - 4) * s) by (nonlinear_arith)
        requires
            my - 4 >= 0,
            s >= 0,
    ;
    m[(my - QUIET) * s + (mx - QUIET)]
}

/// The symbol for `data` as a square picture; nothing for data too long.
pub fn rgba(data: &[u8]) -> (r: Option<Vec<u8>>)
    ensures
        match r {
            Some(px) => picked_from(data@.len(), 1) matches Some(ver) && px@ == picture_of(
                matrix_of(data@, ver),
                ver.size as int,
            ),
            None => picked_from(data@.len(), 1) is None,
        },
{
    let sym = match matrix(data) {
        Some(s) => s,
        None => {
            return None;
        },
    };
    let mut px: Vec<u8> = Vec::new();
    let mut i: usize = 0;
    while i < 262144
        invariant
            i <= 262144,
            21 <= sym.size <= 41,
            sym.modules@.len() == sym.size * sym.size,
            px@ =~= picture_of(sym.modules@, sym.size as int).take(i as int),
        decreases 262144 - i,
    {
        let dark: bool = i % 4 < 3 && is_black(
            sym.modules.as_slice(),
            sym.size,
            i / 4 % 256,
            i / 4 / 256,
        );
        px.push(
            if dark {
                0
            } else {
                255
            },
        );
        i += 1;
    }
    Some(px)
}

} // verus!
