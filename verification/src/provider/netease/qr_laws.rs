//! What a phone finds in a symbol.

use vstd::prelude::*;
use crate::provider::netease::qr;
use crate::provider::netease::qr::Ver;
use crate::provider::netease::reed_solomon;

verus! {

/// The versions by their number: the side grows by four, the alignment pattern
/// stands seven from the far edge from the second version on, and the codewords
/// fill the modules that are left over.
pub proof fn law_versions(v: int)
    requires
        1 <= v <= 6,
    ensures
        ({
            &&& qr::version_at(v) matches Some(ver)
            &&& ver.size == 17 + 4 * v
            &&& ver.align == (if v == 1 {
                0int
            } else {
                10 + 4 * v
            })
            &&& ver.data_cw + ver.ecc * ver.blocks == ((16 * v + 128) * v + (if v == 1 {
                64int
            } else {
                39int
            })) / 8
            &&& ver.data_cw % ver.blocks == 0
        }),
{
    let ver = qr::version_at(v)->0;
    assert(v == 1 || v == 2 || v == 3 || v == 4 || v == 5 || v == 6);
    if v == 6 {
        assert(ver.ecc * ver.blocks == 36);
        assert((16 * v + 128) * v == 1344);
    } else {
        assert(ver.ecc * ver.blocks == ver.ecc) by (nonlinear_arith)
            requires
                ver.blocks == 1,
        ;
        if v == 1 {
            assert((16 * v + 128) * v == 144);
        } else if v == 2 {
            assert((16 * v + 128) * v == 320);
        } else if v == 3 {
            assert((16 * v + 128) * v == 528);
        } else if v == 4 {
            assert((16 * v + 128) * v == 768);
        } else {
            assert((16 * v + 128) * v == 1040);
        }
    }
}

/// The chosen version holds the data, and no smaller one does.
pub proof fn law_smallest_version_is_picked(len: nat, v: int)
    requires
        1 <= v <= 6,
        qr::picked_from(len, 1) is Some,
    ensures
        ({
            let ver = qr::picked_from(len, 1)->0;
            &&& len + 2 <= ver.data_cw
            &&& qr::version_at(v)->0.size < ver.size ==> qr::version_at(v)->0.data_cw < len + 2
        }),
{
    reveal_with_fuel(qr::picked_from, 8);
}

/// The data codewords tell that bytes follow, how many, and which; what is left
/// is filled with the two pad bytes in turn.
pub proof fn law_codewords_carry_the_data(data: Seq<u8>, ver: Ver, i: int)
    requires
        data.len() + 2 <= ver.data_cw,
        data.len() <= 255,
    ensures
        ({
            let cw = qr::data_codewords(data, ver);
            &&& cw.len() == ver.data_cw
            &&& cw[0] as int / 16 == 4
            &&& cw[0] as int % 16 * 16 + cw[1] as int / 16 == data.len()
            &&& 0 <= i < data.len() ==> cw[i + 1] as int % 16 * 16 + cw[i + 2] as int / 16 == data[i]
            &&& cw[data.len() as int + 1] as int % 16 == 0
            &&& data.len() + 2 <= i < ver.data_cw ==> cw[i] == (if (i - data.len()) % 2 == 0 {
                0xecu8
            } else {
                0x11u8
            })
        }),
{
    let cw = qr::data_codewords(data, ver);
    let n = data.len() as int;
    assert(cw[0] as int == 4 * 16 + n / 16);
    lemma_halves(data, ver, 0);
    lemma_halves(data, ver, 1);
    lemma_halves(data, ver, n + 1);
    if 0 <= i < n {
        lemma_halves(data, ver, i + 1);
        lemma_halves(data, ver, i + 2);
        assert((2 * (i + 1) + 1 - 3) / 2 == i && (2 * (i + 1) + 1 - 3) % 2 == 0);
        assert((2 * (i + 2) - 3) / 2 == i && (2 * (i + 2) - 3) % 2 == 1);
    }
}

proof fn lemma_halves(data: Seq<u8>, ver: Ver, k: int)
    requires
        data.len() <= 255,
        0 <= k < data.len() + 2 <= ver.data_cw,
    ensures
        qr::data_codewords(data, ver)[k] as int / 16 == qr::half(data, 2 * k),
        qr::data_codewords(data, ver)[k] as int % 16 == qr::half(data, 2 * k + 1),
{
    assert(0 <= qr::half(data, 2 * k) < 16);
    assert(0 <= qr::half(data, 2 * k + 1) < 16);
}

/// The symbol takes one codeword of each block in turn: first their data, then
/// their check codewords.
pub proof fn law_blocks_are_interleaved(data: Seq<u8>, ver: Ver, b: int, k: int)
    requires
        ver.known(),
        0 <= b < ver.blocks,
        0 <= k,
    ensures
        k < ver.data_cw as int / ver.blocks as int ==> qr::codewords(data, ver)[k * ver.blocks + b]
            == qr::data_codewords(data, ver)[b * (ver.data_cw as int / ver.blocks as int) + k],
        k < ver.ecc ==> qr::codewords(data, ver)[ver.data_cw + k * ver.blocks + b]
            == reed_solomon::check_of(qr::block_of(data, ver, b), ver.ecc as nat)[k],
{
    let n = ver.blocks as int;
    assert(n == 1 || n == 2);
    let per = ver.data_cw as int / n;
    if n == 1 {
        assert(k * ver.blocks == k);
        assert(b == 0);
        assert((b + 1) * per == per);
    } else {
        assert(ver.data_cw == 136);
        assert(per == ver.data_cw as int / 2);
        assert(per == 68);
        assert(k * ver.blocks == 2 * k);
        assert((2 * k + b) % 2 == b);
        assert((2 * k + b) / 2 == k);
    }
}

/// How far two modules are apart, by the longer way.
pub open spec fn apart(x: int, y: int, cx: int, cy: int) -> int {
    let dx = if x < cx {
        cx - x
    } else {
        x - cx
    };
    let dy = if y < cy {
        cy - y
    } else {
        y - cy
    };
    if dx < dy {
        dy
    } else {
        dx
    }
}

/// In three corners stands an eye: dark but for a light ring, with a light edge.
pub proof fn law_eyes_stand_in_three_corners(
    ver: Ver,
    plane: Seq<bool>,
    mask: u8,
    x: int,
    y: int,
)
    requires
        ver.known(),
        0 <= x < ver.size,
        0 <= y < ver.size,
    ensures
        ({
            let s = ver.size as int;
            let dark = qr::module_at(ver, plane, mask, x, y);
            &&& apart(x, y, 3, 3) <= 4 ==> dark == (apart(x, y, 3, 3) != 2 && apart(x, y, 3, 3) != 4)
            &&& apart(x, y, s - 4, 3) <= 4 ==> dark == (apart(x, y, s - 4, 3) != 2 && apart(
                x,
                y,
                s - 4,
                3,
            ) != 4)
            &&& apart(x, y, 3, s - 4) <= 4 ==> dark == (apart(x, y, 3, s - 4) != 2 && apart(
                x,
                y,
                3,
                s - 4,
            ) != 4)
        }),
{
}

/// Between the eyes the modules of the seventh row and column are dark and light
/// in turn; round the alignment centre lies a light ring in a dark one.
pub proof fn law_timing_and_alignment(ver: Ver, plane: Seq<bool>, mask: u8, x: int, y: int)
    requires
        ver.known(),
        0 <= x < ver.size,
        0 <= y < ver.size,
    ensures
        ({
            let s = ver.size as int;
            let a = ver.align as int;
            let dark = qr::module_at(ver, plane, mask, x, y);
            &&& y == 6 && 8 <= x < s - 8 ==> dark == (x % 2 == 0)
            &&& x == 6 && 8 <= y < s - 8 ==> dark == (y % 2 == 0)
            &&& a > 0 && apart(x, y, a, a) <= 2 ==> dark == (apart(x, y, a, a) != 1)
            &&& x == 8 && y == s - 8 ==> dark
        }),
{
}

/// What each mask turns over, row `r` and column `c`.
pub proof fn law_masks(r: int, c: int)
    requires
        0 <= r,
        0 <= c,
    ensures
        qr::masks(0, r, c) == (r % 2 == c % 2),
        qr::masks(1, r, c) == (r % 2 == 0),
        qr::masks(2, r, c) == (c % 3 == 0),
        qr::masks(3, r, c) == ((r % 3 + c % 3) % 3 == 0),
        qr::masks(4, r, c) == ((r / 2) % 2 == (c / 3) % 2),
        qr::masks(5, r, c) == ((r * c) % 6 == 0),
        qr::masks(6, r, c) == ((r * c) % 6 < 3),
        qr::masks(7, r, c) == ((r * c) % 3 % 2 == (r + c) % 2),
{
    assert(0 <= r * c) by (nonlinear_arith)
        requires
            0 <= r,
            0 <= c,
    ;
    let p = r * c;
    assert(p % 6 % 2 == p % 2);
    assert(p % 6 % 3 == p % 3);
}

/// The picture shows every module as a square of whole pixels, the same for all,
/// with at least four light modules round the symbol.
pub proof fn law_modules_are_squares(m: Seq<bool>, s: int, mx: int, my: int, i: int, j: int)
    requires
        21 <= s <= 41,
        m.len() == s * s,
        0 <= mx < s,
        0 <= my < s,
        0 <= i < 256int / (s + 8),
        0 <= j < 256int / (s + 8),
    ensures
        ({
            let side = 256int / (s + 8);
            let edge = (256 - side * (s + 8)) / 2;
            let x = edge + (mx + 4) * side + i;
            let y = edge + (my + 4) * side + j;
            &&& 0 <= x < 256 && 0 <= y < 256
            &&& qr::black(m, s, x, y) == m[my * s + mx]
        }),
{
    let side = 256int / (s + 8);
    let span = s + 8;
    assert(5 <= side <= 8 && side * span <= 256) by (nonlinear_arith)
        requires
            side == 256int / span,
            29 <= span <= 49,
    ;
    let edge = (256 - side * span) / 2;
    assert(span * side == side * span) by (nonlinear_arith);
    assert((mx + 4) * side + side <= span * side) by (nonlinear_arith)
        requires
            mx + 5 <= span,
            side >= 0,
    ;
    assert((my + 4) * side + side <= span * side) by (nonlinear_arith)
        requires
            my + 5 <= span,
            side >= 0,
    ;
    assert(0 <= (mx + 4) * side && 0 <= (my + 4) * side) by (nonlinear_arith)
        requires
            mx >= 0,
            my >= 0,
            side >= 0,
    ;
    vstd::arithmetic::div_mod::lemma_fundamental_div_mod_converse(
        (mx + 4) * side + i,
        side,
        mx + 4,
        i,
    );
    vstd::arithmetic::div_mod::lemma_fundamental_div_mod_converse(
        (my + 4) * side + j,
        side,
        my + 4,
        j,
    );
}

/// A pixel is black or white, and never lets anything shine through.
pub proof fn law_pixels_are_opaque(m: Seq<bool>, s: int, i: int)
    requires
        0 <= i < 65536,
    ensures
        ({
            let px = qr::picture_of(m, s).subrange(4 * i, 4 * i + 4);
            px == (if qr::black(m, s, i % 256, i / 256) {
                seq![0u8, 0u8, 0u8, 255u8]
            } else {
                seq![255u8, 255u8, 255u8, 255u8]
            })
        }),
{
    let px = qr::picture_of(m, s).subrange(4 * i, 4 * i + 4);
    assert((4 * i) / 4 == i && (4 * i + 1) / 4 == i && (4 * i + 2) / 4 == i && (4 * i + 3) / 4 == i);
    assert(px =~= if qr::black(m, s, i % 256, i / 256) {
        seq![0u8, 0u8, 0u8, 255u8]
    } else {
        seq![255u8, 255u8, 255u8, 255u8]
    });
}

// ------------------------------------------------------------------- penalties

/// A run of equal modules at the end of a line costs three for five of them and
/// one for each more; a shorter run costs nothing.
pub proof fn law_runs_cost(front: Seq<bool>, b: bool, n: nat)
    requires
        n > 0,
        front.len() > 0 ==> front.last() != b,
    ensures
        ({
            let line = front + Seq::new(n, |i: int| b);
            &&& qr::end_run(line) == n
            &&& n < 5 ==> qr::line_score(line) == qr::line_score(front)
            &&& n >= 5 ==> qr::line_score(line) == qr::line_score(front) + n - 2
        }),
    decreases n,
{
    let line = front + Seq::new(n, |i: int| b);
    assert(line.last() == b);
    if n == 1 {
        assert(line.drop_last() =~= front);
        if front.len() > 0 {
            assert(line[line.len() - 2] == front.last());
        }
    } else {
        let less = (n - 1) as nat;
        law_runs_cost(front, b, less);
        assert(line.drop_last() =~= front + Seq::new(less, |i: int| b));
        assert(line[line.len() - 2] == b);
    }
}

/// A symbol costs what its rows and its columns cost.
pub proof fn law_rows_and_columns_cost(m: Seq<bool>, s: nat, n: nat)
    ensures
        qr::score_of(m, s) == qr::rows_score(m, s, s) + qr::columns_score(m, s, s),
        qr::rows_score(m, s, 0) == 0,
        qr::columns_score(m, s, 0) == 0,
        qr::rows_score(m, s, n + 1) == qr::rows_score(m, s, n) + qr::line_score(
            Seq::new(s, |x: int| m[n * s + x]),
        ),
        qr::columns_score(m, s, n + 1) == qr::columns_score(m, s, n) + qr::line_score(
            Seq::new(s, |y: int| m[n + y * s]),
        ),
{
    let row = Seq::new(s, |x: int| m[n * s + x]);
    let column = Seq::new(s, |y: int| m[n + y * s]);
    assert((n + 1) as nat - 1 == n);
    assert(((n + 1) as nat - 1) * s == n * s);
    assert(qr::line_at(m, (n * s) as int, 1, s) =~= row);
    assert(qr::line_at(m, n as int, s as int, s) =~= column);
}

/// Of the masks that cost least the first is taken.
pub proof fn law_first_cheapest_mask(ver: Ver, plane: Seq<bool>, n: nat, m: u8)
    requires
        1 <= n <= 8,
        m < qr::best_mask(ver, plane, n),
    ensures
        qr::best_mask(ver, plane, n) < n,
        qr::score_of(qr::symbol_of(ver, plane, m), ver.size as nat) > qr::score_of(
            qr::symbol_of(ver, plane, qr::best_mask(ver, plane, n)),
            ver.size as nat,
        ),
    decreases n,
{
    if n > 1 {
        let less = (n - 1) as nat;
        let b = qr::best_mask(ver, plane, less);
        if qr::best_mask(ver, plane, n) == b && b != less {
            law_first_cheapest_mask(ver, plane, less, m);
        } else {
            lemma_best_below(ver, plane, less);
            qr::law_best_mask_is_lowest(ver, plane, less, m);
        }
    }
}

proof fn lemma_best_below(ver: Ver, plane: Seq<bool>, n: nat)
    requires
        1 <= n <= 8,
    ensures
        qr::best_mask(ver, plane, n) < n,
    decreases n,
{
    if n > 1 {
        lemma_best_below(ver, plane, (n - 1) as nat);
    }
}

// ---------------------------------------------------------------------- format

/// One step of the division by the generator of the format bits.
spec fn divided_once(r: u16) -> u16 {
    if (r >> 9) & 1 == 1 {
        (r << 1) ^ 0x537
    } else {
        r << 1
    }
}

spec fn divided_five(r: u16) -> u16 {
    divided_once(divided_once(divided_once(divided_once(divided_once(r)))))
}

/// The format bits of the lowest correction level and each mask.
pub proof fn law_format_words()
    ensures
        qr::format_word(0) == 0b111011111000100,
        qr::format_word(1) == 0b111001011110011,
        qr::format_word(2) == 0b111110110101010,
        qr::format_word(3) == 0b111100010011101,
        qr::format_word(4) == 0b110011000101111,
        qr::format_word(5) == 0b110001100011000,
        qr::format_word(6) == 0b110110001000001,
        qr::format_word(7) == 0b110100101110110,
{
    lemma_format_word(0);
    lemma_format_word(1);
    lemma_format_word(2);
    lemma_format_word(3);
    lemma_format_word(4);
    lemma_format_word(5);
    lemma_format_word(6);
    lemma_format_word(7);
    assert(short_word(0) == 0b111011111000100 && short_word(1) == 0b111001011110011 && short_word(2)
        == 0b111110110101010 && short_word(3) == 0b111100010011101 && short_word(4)
        == 0b110011000101111 && short_word(5) == 0b110001100011000 && short_word(6)
        == 0b110110001000001 && short_word(7) == 0b110100101110110) by (bit_vector);
}

spec fn short_word(mask: u8) -> u16 {
    ((((1u16 << 3) | (mask as u16)) << 10) | (divided_five(
        divided_five((1u16 << 3) | (mask as u16)),
    ) & 0x3FF)) ^ 0x5412
}

proof fn lemma_format_word(mask: u8)
    ensures
        qr::format_word(mask) == short_word(mask),
{
    let data = (1u16 << 3) | (mask as u16);
    reveal_with_fuel(qr::format_rest, 11);
    assert(qr::format_rest(data, 5) == divided_five(data));
    assert(qr::format_rest(data, 10) == divided_five(divided_five(data)));
}

/// The format bits stand twice: round the first eye, from its right edge down and
/// back to the left, and along the two others; the module below is dark.
pub proof fn law_format_stands_twice(s: int, word: u16, i: int)
    requires
        21 <= s,
        0 <= i < 15,
    ensures
        ({
            let bit = Some(qr::word_bit(word, i));
            let first = if i <= 5 {
                qr::format_at(s, word, 8, i)
            } else if i <= 7 {
                qr::format_at(s, word, 8, i + 1)
            } else if i == 8 {
                qr::format_at(s, word, 7, 8)
            } else {
                qr::format_at(s, word, 14 - i, 8)
            };
            let second = if i <= 7 {
                qr::format_at(s, word, s - 1 - i, 8)
            } else {
                qr::format_at(s, word, 8, s - 15 + i)
            };
            first == bit && second == bit
        }),
        qr::format_at(s, word, 8, s - 8) == Some(true),
        qr::word_bit(word, i) <==> (word >> (i as u16)) % 2 == 1,
{
    let w = word >> (i as u16);
    assert(w & 1 == w % 2) by (bit_vector);
}

} // verus!
