//! Unsigned integers of any length, for the RSA step of a request.

use vstd::prelude::*;
use vstd::arithmetic::power::pow;
use vstd::arithmetic::power2::pow2;

verus! {

/// The limb base.
pub open spec fn base() -> nat {
    0x1_0000_0000
}

/// The limb base raised to `e`.
pub open spec fn base_pow(e: nat) -> nat
    decreases e,
{
    if e == 0 {
        1
    } else {
        base() * base_pow((e - 1) as nat)
    }
}

/// The number that little-endian limbs stand for.
pub open spec fn limbs_value(d: Seq<u32>) -> nat
    decreases d.len(),
{
    if d.len() == 0 {
        0
    } else {
        limbs_value(d.drop_last()) + d.last() as nat * base_pow((d.len() - 1) as nat)
    }
}

/// The number that big-endian bytes stand for.
pub open spec fn be_value(s: Seq<u8>) -> nat
    decreases s.len(),
{
    if s.len() == 0 {
        0
    } else {
        be_value(s.drop_last()) * 256 + s.last() as nat
    }
}

pub open spec fn hex_digit_value(b: u8) -> u8 {
    if 0x30 <= b <= 0x39 {
        (b - 0x30) as u8
    } else if 0x61 <= b <= 0x66 {
        (b - 0x61 + 10) as u8
    } else if 0x41 <= b <= 0x46 {
        (b - 0x41 + 10) as u8
    } else {
        0
    }
}

/// The bytes that pairs of hexadecimal digits stand for; an odd digit at the
/// end is dropped.
pub open spec fn hex_bytes(s: Seq<u8>) -> Seq<u8>
    decreases s.len(),
{
    if s.len() < 2 {
        Seq::empty()
    } else {
        seq![(hex_digit_value(s[0]) * 16 + hex_digit_value(s[1])) as u8] + hex_bytes(s.skip(2))
    }
}

// -------------------------------------------------------------------- lemmas

proof fn lemma_base_pow_pos(e: nat)
    ensures
        base_pow(e) > 0,
    decreases e,
{
    if e > 0 {
        lemma_base_pow_pos((e - 1) as nat);
        assert(base() * base_pow((e - 1) as nat) > 0) by (nonlinear_arith)
            requires
                base() > 0,
                base_pow((e - 1) as nat) > 0,
        ;
    }
}

proof fn lemma_base_pow_adds(a: nat, b: nat)
    ensures
        base_pow(a + b) == base_pow(a) * base_pow(b),
    decreases a,
{
    if a == 0 {
        assert(1 * base_pow(b) == base_pow(b)) by (nonlinear_arith);
    } else {
        lemma_base_pow_adds((a - 1) as nat, b);
        assert(base_pow(a + b) == base() * base_pow((a - 1 + b) as nat));
        assert(base() * (base_pow((a - 1) as nat) * base_pow(b)) == (base() * base_pow(
            (a - 1) as nat,
        )) * base_pow(b)) by (nonlinear_arith);
    }
}

proof fn lemma_base_pow_is_pow2(e: nat)
    ensures
        base_pow(e) == pow2(32 * e),
    decreases e,
{
    vstd::arithmetic::power2::lemma2_to64();
    if e > 0 {
        lemma_base_pow_is_pow2((e - 1) as nat);
        vstd::arithmetic::power2::lemma_pow2_adds(32, (32 * (e - 1)) as nat);
    }
}

/// Limbs stand for less than the base to their number.
proof fn lemma_limbs_bound(d: Seq<u32>)
    ensures
        limbs_value(d) < base_pow(d.len()),
    decreases d.len(),
{
    if d.len() > 0 {
        lemma_limbs_bound(d.drop_last());
        let p = base_pow((d.len() - 1) as nat);
        assert(limbs_value(d.drop_last()) + d.last() as nat * p < base() * p) by (nonlinear_arith)
            requires
                limbs_value(d.drop_last()) < p,
                d.last() as nat + 1 <= base(),
        ;
    }
}

proof fn lemma_limbs_at_least(d: Seq<u32>)
    requires
        d.len() > 0,
        d.last() != 0,
    ensures
        limbs_value(d) >= base_pow((d.len() - 1) as nat),
{
    let p = base_pow((d.len() - 1) as nat);
    assert(d.last() as nat * p >= p) by (nonlinear_arith)
        requires
            d.last() as nat >= 1,
    ;
}

proof fn lemma_base_pow_monotone(a: nat, b: nat)
    requires
        a <= b,
    ensures
        base_pow(a) <= base_pow(b),
    decreases b,
{
    if a < b {
        lemma_base_pow_monotone(a, (b - 1) as nat);
        assert(base() * base_pow((b - 1) as nat) >= base_pow((b - 1) as nat)) by (nonlinear_arith)
            requires
                base() >= 1,
        ;
    }
}

proof fn lemma_limbs_step(d: Seq<u32>, i: int)
    requires
        0 <= i < d.len(),
    ensures
        limbs_value(d.take(i + 1)) == limbs_value(d.take(i)) + d[i] as nat * base_pow(i as nat),
{
    assert(d.take(i + 1).drop_last() == d.take(i));
}

/// Zero limbs at the end do not matter.
proof fn lemma_limbs_trailing_zero(d: Seq<u32>)
    requires
        d.len() > 0,
        d.last() == 0,
    ensures
        limbs_value(d) == limbs_value(d.drop_last()),
{
    assert(0 * base_pow((d.len() - 1) as nat) == 0) by (nonlinear_arith);
}

proof fn lemma_limbs_all_zero(d: Seq<u32>)
    requires
        forall|i: int| 0 <= i < d.len() ==> d[i] == 0,
    ensures
        limbs_value(d) == 0,
    decreases d.len(),
{
    if d.len() > 0 {
        lemma_limbs_all_zero(d.drop_last());
        lemma_limbs_trailing_zero(d);
    }
}

/// Splitting limbs at `k`.
proof fn lemma_limbs_split(d: Seq<u32>, k: int)
    requires
        0 <= k <= d.len(),
    ensures
        limbs_value(d) == limbs_value(d.take(k)) + limbs_value(d.skip(k)) * base_pow(k as nat),
    decreases d.len() - k,
{
    if k == d.len() {
        assert(d.take(k) == d);
        assert(d.skip(k) == Seq::<u32>::empty());
        assert(0 * base_pow(k as nat) == 0) by (nonlinear_arith);
    } else {
        let e = d.drop_last();
        lemma_limbs_split(e, k);
        assert(e.take(k) == d.take(k));
        assert(d.skip(k).drop_last() == e.skip(k));
        let h = (d.len() - 1 - k) as nat;
        lemma_base_pow_adds(h, k as nat);
        let a = limbs_value(e.skip(k));
        let l = d.last() as nat;
        assert(d.skip(k).len() - 1 == h);
        assert((a + l * base_pow(h)) * base_pow(k as nat) == a * base_pow(k as nat) + l * (base_pow(h)
            * base_pow(k as nat))) by (nonlinear_arith);
    }
}

proof fn lemma_limbs_one(x: u32)
    ensures
        limbs_value(seq![x]) == x,
{
    let s = seq![x];
    assert(s.drop_last() == Seq::<u32>::empty());
    assert(limbs_value(s.drop_last()) == 0);
    assert(base_pow(0) == 1);
    assert(s.last() as nat * 1 == x) by (nonlinear_arith)
        requires
            s.last() == x,
    ;
}

/// Bytes in front weigh 256 to the number of bytes behind them.
proof fn lemma_be_concat(a: Seq<u8>, b: Seq<u8>)
    ensures
        be_value(a + b) == be_value(a) * pow(256, b.len()) + be_value(b),
    decreases b.len(),
{
    vstd::arithmetic::power::lemma_pow0(256);
    if b.len() == 0 {
        assert(a + b == a);
        assert(be_value(a) * 1 == be_value(a)) by (nonlinear_arith);
    } else {
        let c = b.drop_last();
        lemma_be_concat(a, c);
        assert((a + b).drop_last() == a + c);
        vstd::arithmetic::power::lemma_pow_adds(256, c.len(), 1);
        vstd::arithmetic::power::lemma_pow1(256);
        assert((be_value(a) * pow(256, c.len()) + be_value(c)) * 256 == be_value(a) * (pow(
            256,
            c.len(),
        ) * 256) + be_value(c) * 256) by (nonlinear_arith);
    }
}

proof fn lemma_be_bound(s: Seq<u8>)
    ensures
        be_value(s) < pow(256, s.len()),
    decreases s.len(),
{
    vstd::arithmetic::power::lemma_pow0(256);
    if s.len() > 0 {
        let t = s.drop_last();
        lemma_be_bound(t);
        vstd::arithmetic::power::lemma_pow_adds(256, t.len(), 1);
        vstd::arithmetic::power::lemma_pow1(256);
        assert(be_value(t) * 256 + s.last() as nat <= (pow(256, t.len()) - 1) * 256 + 255)
            by (nonlinear_arith)
            requires
                be_value(t) <= pow(256, t.len()) - 1,
                s.last() as nat <= 255,
        ;
        assert((pow(256, t.len()) - 1) * 256 + 255 < pow(256, t.len()) * 256) by (nonlinear_arith);
    }
}

proof fn lemma_base_pow_is_bytes(e: nat)
    ensures
        base_pow(e) == pow(256, 4 * e),
    decreases e,
{
    vstd::arithmetic::power::lemma_pow0(256);
    if e > 0 {
        lemma_base_pow_is_bytes((e - 1) as nat);
        vstd::arithmetic::power::lemma_pow_adds(256, 4, (4 * (e - 1)) as nat);
        assert(pow(256, 4) == 0x1_0000_0000) by {
            lemma_pow256();
        }
    }
}

proof fn lemma_pow256()
    ensures
        pow(256, 0) == 1,
        pow(256, 1) == 256,
        pow(256, 2) == 0x1_0000,
        pow(256, 3) == 0x100_0000,
        pow(256, 4) == 0x1_0000_0000,
{
    reveal_with_fuel(pow, 6);
}

// ---------------------------------------------------------------------- type

/// An unsigned integer, little-endian, 32 bits to a limb.
pub struct Uint {
    d: Vec<u32>,
}

impl Uint {
    pub closed spec fn limbs(self) -> Seq<u32> {
        self.d@
    }

    /// The number it stands for.
    pub open spec fn value(self) -> nat {
        limbs_value(self.limbs())
    }

    /// At least one limb, and no zero limb in front of the number.
    pub open spec fn wf(self) -> bool {
        &&& self.limbs().len() > 0
        &&& self.limbs().len() > 1 ==> self.limbs().last() != 0
    }

    pub fn from_u32(v: u32) -> (r: Self)
        ensures
            r.wf(),
            r.value() == v,
            r.limbs().len() == 1,
    {
        let mut d: Vec<u32> = Vec::new();
        d.push(v);
        proof {
            lemma_limbs_one(v);
            assert(d@ == seq![v]);
        }
        Uint { d }
    }

    /// Drops the zero limbs in front of the number.
    fn from_limbs(limbs: Vec<u32>) -> (r: Self)
        ensures
            r.wf(),
            r.value() == limbs_value(limbs@),
            r.limbs().len() <= limbs@.len() || r.limbs().len() == 1,
    {
        let mut d = limbs;
        while d.len() > 1 && d[d.len() - 1] == 0
            invariant
                limbs_value(d@) == limbs_value(limbs@),
                d@.len() <= limbs@.len(),
            decreases d.len(),
        {
            proof {
                lemma_limbs_trailing_zero(d@);
            }
            d.pop();
        }
        if d.len() == 0 {
            d.push(0);
            proof {
                lemma_limbs_all_zero(d@);
            }
            return Uint { d };
        }
        Uint { d }
    }

    fn copy(&self) -> (r: Self)
        ensures
            r.limbs() == self.limbs(),
    {
        let mut d: Vec<u32> = Vec::new();
        let mut i: usize = 0;
        while i < self.d.len()
            invariant
                i <= self.d@.len(),
                d@ == self.d@.take(i as int),
            decreases self.d.len() - i,
        {
            d.push(self.d[i]);
            assert(self.d@.take(i + 1) == self.d@.take(i as int).push(self.d@[i as int]));
            i += 1;
        }
        assert(self.d@.take(i as int) == self.d@);
        Uint { d }
    }

    /// The number in big-endian bytes.
    pub fn from_be(bytes: &[u8]) -> (r: Self)
        ensures
            r.wf(),
            r.value() == be_value(bytes@),
            r.limbs().len() <= (bytes@.len() + 3) / 4 || r.limbs().len() == 1,
    {
        let n: usize = bytes.len();
        let mut d: Vec<u32> = Vec::new();
        let mut end: usize = n;
        assert(bytes@.skip(n as int) == Seq::<u8>::empty());
        while end > 0
            invariant
                n == bytes@.len(),
                end <= n,
                limbs_value(d@) == be_value(bytes@.skip(end as int)),
                end > 0 ==> n - end == 4 * d@.len(),
                end == 0 ==> d@.len() <= (n + 3) / 4,
                n > 0 ==> d@.len() <= (n + 3) / 4,
            decreases end,
        {
            let start: usize = if end >= 4 {
                end - 4
            } else {
                0
            };
            let mut limb: u32 = 0;
            let mut k: usize = start;
            proof {
                lemma_pow256();
            }
            assert(bytes@.subrange(start as int, start as int) == Seq::<u8>::empty());
            while k < end
                invariant
                    n == bytes@.len(),
                    start <= k <= end <= n,
                    end - start <= 4,
                    limb as nat == be_value(bytes@.subrange(start as int, k as int)),
                decreases end - k,
            {
                let ghost part = bytes@.subrange(start as int, k as int);
                proof {
                    lemma_pow256();
                    lemma_be_bound(part);
                    assert(part.len() <= 3);
                    assert(limb < 0x100_0000) by {
                        if part.len() == 0 {
                        } else if part.len() == 1 {
                        } else if part.len() == 2 {
                        } else {
                            assert(part.len() == 3);
                        }
                    }
                    assert(bytes@.subrange(start as int, k + 1).drop_last() == part);
                }
                limb = limb * 256 + bytes[k] as u32;
                k += 1;
            }
            proof {
                let group = bytes@.subrange(start as int, end as int);
                let tail = bytes@.skip(end as int);
                assert(bytes@.skip(start as int) == group + tail);
                lemma_be_concat(group, tail);
                lemma_base_pow_is_bytes(d@.len());
                assert(d@.push(limb).drop_last() == d@);
                assert(limbs_value(d@.push(limb)) == limbs_value(d@) + limb as nat * base_pow(d@.len()));
            }
            d.push(limb);
            end = start;
        }
        assert(bytes@.skip(0) == bytes@);
        Uint::from_limbs(d)
    }

    /// The number written in hexadecimal digits.
    pub fn from_be_hex(s: &str) -> (r: Self)
        ensures
            r.wf(),
            r.value() == be_value(hex_bytes(vstd::utf8::encode_utf8(s@))),
            r.limbs().len() <= (vstd::utf8::encode_utf8(s@).len() / 2 + 3) / 4 || r.limbs().len()
                == 1,
    {
        let sb = s.as_bytes();
        let mut bytes: Vec<u8> = Vec::new();
        let mut i: usize = 0;
        assert(sb@.skip(0) == sb@);
        while sb.len() - i >= 2
            invariant
                i <= sb@.len(),
                i == 2 * bytes@.len(),
                hex_bytes(sb@) =~= bytes@ + hex_bytes(sb@.skip(i as int)),
            decreases sb.len() - i,
        {
            let hi = hex_val(sb[i]);
            let lo = hex_val(sb[i + 1]);
            assert(sb@.skip(i as int).skip(2) == sb@.skip(i + 2));
            bytes.push(hi * 16 + lo);
            i += 2;
        }
        assert(hex_bytes(sb@.skip(i as int)) == Seq::<u8>::empty());
        assert(hex_bytes(sb@) == bytes@);
        Uint::from_be(bytes.as_slice())
    }

    /// The lowest `n` bytes of the number, big-endian.
    pub fn to_be_fixed(&self, n: usize) -> (r: Vec<u8>)
        ensures
            r@.len() == n,
            be_value(r@) == self.value() as int % pow(256, n as nat),
    {
        let mut rev: Vec<u8> = Vec::new();
        let ghost v = self.value();
        proof {
            lemma_pow256();
            assert(rev@.reverse() == Seq::<u8>::empty());
            assert(v as int % 1 == 0);
        }
        let mut k: usize = 0;
        while k < n
            invariant
                k <= n,
                rev@.len() == k,
                v == self.value(),
                be_value(rev@.reverse()) == v as int % pow(256, k as nat),
            decreases n - k,
        {
            let limb: u32 = if k / 4 < self.d.len() {
                self.d[k / 4]
            } else {
                0
            };
            let b: u8 = if k % 4 == 0 {
                (limb % 256) as u8
            } else if k % 4 == 1 {
                ((limb / 0x100) % 256) as u8
            } else if k % 4 == 2 {
                ((limb / 0x1_0000) % 256) as u8
            } else {
                (limb / 0x100_0000) as u8
            };
            proof {
                lemma_pow256();
                assert(b == (limb as int / pow(256, k as nat % 4)) % 256) by {
                    if k % 4 == 0 {
                        assert(k as nat % 4 == 0);
                    } else if k % 4 == 1 {
                        assert(k as nat % 4 == 1);
                    } else if k % 4 == 2 {
                        assert(k as nat % 4 == 2);
                    } else {
                        assert(k as nat % 4 == 3);
                    }
                }
                lemma_byte_of(self.d@, k as nat, limb, b);
                let old_rev = rev@.reverse();
                assert(rev@.push(b).reverse() == seq![b] + old_rev);
                lemma_be_concat(seq![b], old_rev);
                assert(seq![b].drop_last() == Seq::<u8>::empty());
                assert(be_value(seq![b].drop_last()) == 0);
                assert(seq![b].last() == b);
                assert(be_value(seq![b]) == b);
                lemma_mod_step(v as int, k as nat);
            }
            rev.push(b);
            k += 1;
        }
        let mut out: Vec<u8> = Vec::new();
        let mut j: usize = n;
        while j > 0
            invariant
                j <= n,
                rev@.len() == n,
                out@ =~= rev@.reverse().take(n - j),
            decreases j,
        {
            out.push(rev[j - 1]);
            j -= 1;
        }
        assert(out@ == rev@.reverse());
        out
    }
}

proof fn lemma_mod_step(v: int, k: nat)
    requires
        v >= 0,
    ensures
        v % pow(256, k + 1) == ((v / pow(256, k)) % 256) * pow(256, k) + v % pow(256, k),
{
    let p = pow(256, k);
    vstd::arithmetic::power::lemma_pow_positive(256, k);
    vstd::arithmetic::power::lemma_pow_adds(256, k, 1);
    vstd::arithmetic::power::lemma_pow1(256);
    vstd::arithmetic::div_mod::lemma_mod_breakdown(v, p, 256);
    assert(p * ((v / p) % 256) == ((v / p) % 256) * p) by (nonlinear_arith);
}

proof fn lemma_low_limb_byte(limb: int, rest: int, r: nat)
    requires
        0 <= limb < 0x1_0000_0000,
        rest >= 0,
        r < 4,
    ensures
        ((limb + rest * 0x1_0000_0000) / pow(256, r)) % 256 == (limb / pow(256, r)) % 256,
{
    lemma_pow256();
    if r == 0 {
        assert((limb + rest * 0x1_0000_0000) % 256 == limb % 256);
    } else if r == 1 {
        assert((limb + rest * 0x1_0000_0000) / 256 == limb / 256 + rest * 0x100_0000);
    } else if r == 2 {
        assert((limb + rest * 0x1_0000_0000) / 0x1_0000 == limb / 0x1_0000 + rest * 0x1_0000);
    } else {
        assert(r == 3);
        assert((limb + rest * 0x1_0000_0000) / 0x100_0000 == limb / 0x100_0000 + rest * 0x100);
    }
}

/// Byte `k` of a number, counted from the low end, read off its limbs.
proof fn lemma_byte_of(d: Seq<u32>, k: nat, limb: u32, b: u8)
    requires
        limb == (if k / 4 < d.len() {
            d[(k / 4) as int]
        } else {
            0
        }),
        b == (limb as int / pow(256, k % 4)) % 256,
    ensures
        (limbs_value(d) as int / pow(256, k)) % 256 == b,
{
    let q = k / 4;
    let r = k % 4;
    let v = limbs_value(d) as int;
    lemma_pow256();
    lemma_base_pow_is_bytes(q);
    lemma_base_pow_pos(q);
    let bq = base_pow(q) as int;
    vstd::arithmetic::power::lemma_pow_positive(256, r);
    vstd::arithmetic::power::lemma_pow_positive(256, k);
    let w = pow(256, r);
    vstd::arithmetic::power::lemma_pow_adds(256, 4 * q, r);
    assert(k == 4 * q + r);
    vstd::arithmetic::div_mod::lemma_div_denominator(v, bq, w);
    // v / 256^k == (v / base^q) / 256^r
    assert(v / pow(256, k) == (v / bq) / w);
    if q < d.len() {
        lemma_limbs_split(d, q as int);
        let low = limbs_value(d.take(q as int)) as int;
        let high = limbs_value(d.skip(q as int)) as int;
        lemma_limbs_bound(d.take(q as int));
        vstd::arithmetic::div_mod::lemma_fundamental_div_mod_converse(v, bq, high, low);
        let t = d.skip(q as int);
        lemma_limbs_split(t, 1);
        assert(t.take(1) == seq![d[q as int]]);
        lemma_limbs_one(d[q as int]);
        let rest = limbs_value(t.skip(1)) as int;
        assert(base_pow(1) == base()) by {
            assert(base_pow(0) == 1);
            assert(base() * 1 == base());
        }
        assert(high == limb + rest * base());
        lemma_low_limb_byte(limb as int, rest, r);
    } else {
        lemma_limbs_bound(d);
        lemma_base_pow_monotone(d.len(), q);
        vstd::arithmetic::div_mod::lemma_basic_div(v, bq);
        assert(v / bq == 0);
        assert(0int / w == 0) by (nonlinear_arith)
            requires
                w > 0,
        ;
    }
}

pub fn hex_val(b: u8) -> (r: u8)
    ensures
        r == hex_digit_value(b),
        r < 16,
{
    if 0x30 <= b && b <= 0x39 {
        b - 0x30
    } else if 0x61 <= b && b <= 0x66 {
        b - 0x61 + 10
    } else if 0x41 <= b && b <= 0x46 {
        b - 0x41 + 10
    } else {
        0
    }
}

proof fn lemma_limbs_update(d: Seq<u32>, k: int, x: u32)
    requires
        0 <= k < d.len(),
    ensures
        limbs_value(d.update(k, x)) == limbs_value(d) - d[k] as int * base_pow(k as nat) + x as int
            * base_pow(k as nat),
    decreases d.len(),
{
    let e = d.update(k, x);
    if k == d.len() - 1 {
        assert(e.drop_last() == d.drop_last());
    } else {
        lemma_limbs_update(d.drop_last(), k, x);
        assert(e.drop_last() == d.drop_last().update(k, x));
    }
}

/// The limb at `i`, or zero beyond the number.
pub open spec fn limb_or_zero(d: Seq<u32>, i: int) -> u32 {
    if 0 <= i < d.len() {
        d[i]
    } else {
        0
    }
}

/// The value of the lowest `i` limbs.
pub open spec fn low_value(d: Seq<u32>, i: int) -> nat {
    if i <= d.len() {
        limbs_value(d.take(i))
    } else {
        limbs_value(d)
    }
}

proof fn lemma_low_step(d: Seq<u32>, i: int)
    requires
        0 <= i,
    ensures
        low_value(d, i + 1) == low_value(d, i) + limb_or_zero(d, i) as nat * base_pow(i as nat),
{
    if i < d.len() {
        lemma_limbs_step(d, i);
    } else {
        assert(d.take(d.len() as int) == d);
        assert(0 * base_pow(i as nat) == 0) by (nonlinear_arith);
    }
}

/// How many bits a limb takes.
fn limb_bits(x: u32) -> (r: usize)
    ensures
        x == 0 ==> r == 0,
        x != 0 ==> r >= 1 && pow2((r - 1) as nat) <= x < pow2(r as nat),
        r <= 32,
    decreases x,
{
    proof {
        vstd::arithmetic::power2::lemma2_to64();
    }
    if x == 0 {
        0
    } else if x == 1 {
        1
    } else {
        let n = limb_bits(x / 2);
        proof {
            vstd::arithmetic::power2::lemma_pow2_unfold(n as nat);
            vstd::arithmetic::power2::lemma_pow2_unfold((n + 1) as nat);
            if n == 32 {
                assert(pow2(31) == 0x8000_0000);
            }
        }
        n + 1
    }
}

fn two_to(e: usize) -> (r: u64)
    requires
        e < 32,
    ensures
        r == pow2(e as nat),
        1 <= r <= 0x8000_0000,
    decreases e,
{
    proof {
        vstd::arithmetic::power2::lemma2_to64();
        if e > 0 {
            vstd::arithmetic::power2::lemma_pow2_unfold(e as nat);
        }
        if e < 31 {
            vstd::arithmetic::power2::lemma_pow2_strictly_increases(e as nat, 31);
        }
        vstd::arithmetic::power2::lemma_pow2_pos(e as nat);
    }
    if e == 0 {
        1
    } else {
        2 * two_to(e - 1)
    }
}

fn zeros(n: usize) -> (r: Vec<u32>)
    ensures
        r@.len() == n,
        forall|i: int| 0 <= i < n ==> r@[i] == 0,
{
    let mut d: Vec<u32> = Vec::new();
    let mut i: usize = 0;
    while i < n
        invariant
            i <= n,
            d@.len() == i,
            forall|j: int| 0 <= j < i ==> d@[j] == 0,
        decreases n - i,
    {
        d.push(0);
        i += 1;
    }
    d
}

impl Uint {
    fn limb(&self, i: usize) -> (r: u32)
        ensures
            r == limb_or_zero(self.limbs(), i as int),
    {
        if i < self.d.len() {
            self.d[i]
        } else {
            0
        }
    }

    /// How many bits the number takes; zero takes none.
    pub fn bitlen(&self) -> (r: usize)
        requires
            self.wf(),
            self.limbs().len() * 32 <= usize::MAX,
        ensures
            self.value() == 0 <==> r == 0,
            r > 0 ==> pow2((r - 1) as nat) <= self.value() < pow2(r as nat),
            r <= self.limbs().len() * 32,
    {
        let n: usize = self.d.len();
        let last = self.d[n - 1];
        if n == 1 && last == 0 {
            proof {
                lemma_limbs_all_zero(self.d@);
            }
            return 0;
        }
        let bits = limb_bits(last);
        proof {
            let e = (n - 1) as nat;
            let low = limbs_value(self.d@.drop_last());
            lemma_limbs_bound(self.d@.drop_last());
            lemma_base_pow_is_pow2(e);
            lemma_base_pow_pos(e);
            vstd::arithmetic::power2::lemma_pow2_adds(32 * e, (bits - 1) as nat);
            vstd::arithmetic::power2::lemma_pow2_adds(32 * e, bits as nat);
            let p = base_pow(e);
            let lo = pow2((bits - 1) as nat);
            let hi = pow2(bits as nat);
            assert(low + last as nat * p >= p * lo) by (nonlinear_arith)
                requires
                    last as nat >= lo,
            ;
            assert(low + last as nat * p < p * hi) by (nonlinear_arith)
                requires
                    last as nat + 1 <= hi,
                    low < p,
            ;
            vstd::arithmetic::power2::lemma_pow2_pos((bits - 1) as nat);
            assert(p * lo > 0) by (nonlinear_arith)
                requires
                    p > 0,
                    lo > 0,
            ;
        }
        (n - 1) * 32 + bits
    }

    /// Numeric order.
    pub fn is_less(&self, other: &Self) -> (r: bool)
        requires
            self.wf(),
            other.wf(),
        ensures
            r == (self.value() < other.value()),
    {
        let a: usize = self.d.len();
        let b: usize = other.d.len();
        if a < b {
            proof {
                lemma_limbs_bound(self.d@);
                lemma_limbs_at_least(other.d@);
                lemma_base_pow_monotone(a as nat, (b - 1) as nat);
            }
            return true;
        }
        if a > b {
            proof {
                lemma_limbs_bound(other.d@);
                lemma_limbs_at_least(self.d@);
                lemma_base_pow_monotone(b as nat, (a - 1) as nat);
            }
            return false;
        }
        let mut i: usize = a;
        assert(self.d@.take(a as int) == self.d@);
        assert(other.d@.take(a as int) == other.d@);
        while i > 0
            invariant
                i <= a,
                a == self.d@.len(),
                a == other.d@.len(),
                self.value() - limbs_value(self.d@.take(i as int)) == other.value() - limbs_value(
                    other.d@.take(i as int),
                ),
            decreases i,
        {
            i -= 1;
            proof {
                lemma_limbs_step(self.d@, i as int);
                lemma_limbs_step(other.d@, i as int);
            }
            if self.d[i] != other.d[i] {
                proof {
                    lemma_limbs_bound(self.d@.take(i as int));
                    lemma_limbs_bound(other.d@.take(i as int));
                    let p = base_pow(i as nat);
                    let x = self.d@[i as int] as nat;
                    let y = other.d@[i as int] as nat;
                    let lx = limbs_value(self.d@.take(i as int));
                    let ly = limbs_value(other.d@.take(i as int));
                    if x < y {
                        assert(lx + x * p < ly + y * p) by (nonlinear_arith)
                            requires
                                x + 1 <= y,
                                lx < p,
                        ;
                    } else {
                        assert(ly + y * p < lx + x * p) by (nonlinear_arith)
                            requires
                                y + 1 <= x,
                                ly < p,
                        ;
                    }
                }
                return self.d[i] < other.d[i];
            }
        }
        false
    }

    /// The number times two to `bits`.
    pub fn shl(&self, bits: usize) -> (r: Self)
        requires
            self.wf(),
            self.limbs().len() + bits / 32 + 1 <= usize::MAX,
        ensures
            r.wf(),
            r.value() == self.value() * pow2(bits as nat),
            r.limbs().len() <= self.limbs().len() + bits / 32 + 1,
    {
        let words: usize = bits / 32;
        let factor = two_to(bits % 32);
        let mut d = zeros(words);
        let mut carry: u64 = 0;
        let mut i: usize = 0;
        proof {
            lemma_limbs_all_zero(d@);
            assert(self.d@.take(0) == Seq::<u32>::empty());
            assert(0 * factor * base_pow(words as nat) == 0) by (nonlinear_arith);
            assert(0 * base_pow(words as nat) == 0) by (nonlinear_arith);
        }
        while i < self.d.len()
            invariant
                i <= self.d@.len(),
                1 <= factor <= 0x8000_0000,
                d@.len() == words + i,
                carry < factor,
                limbs_value(d@) + carry * base_pow((words + i) as nat) == limbs_value(
                    self.d@.take(i as int),
                ) * factor * base_pow(words as nat),
            decreases self.d.len() - i,
        {
            let w = self.d[i] as u64;
            let ghost c0 = carry;
            assert(w * factor + carry <= 0x7fff_ffff_ffff_ffff) by (nonlinear_arith)
                requires
                    w <= 0xffff_ffff,
                    factor <= 0x8000_0000,
                    carry < factor,
            ;
            assert(0 <= w * factor) by (nonlinear_arith);
            let t: u64 = w * factor + carry;
            let low = (t % 0x1_0000_0000) as u32;
            carry = t / 0x1_0000_0000;
            proof {
                assert(carry < factor) by (nonlinear_arith)
                    requires
                        carry == t / 0x1_0000_0000,
                        t == w * factor + c0,
                        w <= 0xffff_ffff,
                        c0 < factor,
                ;
                lemma_limbs_step(self.d@, i as int);
                let k = (words + i) as nat;
                let p = base_pow(k);
                let q = base_pow(words as nat);
                let pi = base_pow(i as nat);
                lemma_base_pow_adds(words as nat, i as nat);
                assert(d@.push(low).drop_last() == d@);
                assert(base_pow((words + i + 1) as nat) == base() * p);
                let v = limbs_value(self.d@.take(i as int));
                let old_value = limbs_value(d@) as int;
                assert(t == (t / 0x1_0000_0000) * 0x1_0000_0000 + t % 0x1_0000_0000);
                assert(low as int * p + carry as int * (base() * p) == t as int * p)
                    by (nonlinear_arith)
                    requires
                        t as int == carry as int * 0x1_0000_0000 + low as int,
                        base() == 0x1_0000_0000,
                ;
                assert((v + w as nat * pi) * factor * q == v * factor * q + (w * factor) * (q * pi))
                    by (nonlinear_arith);
                assert(t as int * p == (w * factor) * p + c0 as int * p) by (nonlinear_arith)
                    requires
                        t as int == w * factor + c0,
                ;
                assert(p == q * pi);
            }
            d.push(low);
            i += 1;
        }
        assert(self.d@.take(i as int) == self.d@);
        let ghost before = d@;
        d.push(carry as u32);
        proof {
            assert(d@.drop_last() == before);
            lemma_base_pow_is_pow2(words as nat);
            vstd::arithmetic::power2::lemma_pow2_adds((bits % 32) as nat, (32 * words) as nat);
            assert(self.value() * factor * base_pow(words as nat) == self.value() * (factor * base_pow(
                words as nat,
            ))) by (nonlinear_arith);
        }
        Uint::from_limbs(d)
    }

    /// The sum.
    pub fn add(&self, other: &Self) -> (r: Self)
        requires
            self.limbs().len() < usize::MAX,
            other.limbs().len() < usize::MAX,
        ensures
            r.wf(),
            r.value() == self.value() + other.value(),
    {
        let n: usize = if self.d.len() > other.d.len() {
            self.d.len()
        } else {
            other.d.len()
        };
        let mut d: Vec<u32> = Vec::new();
        let mut carry: u64 = 0;
        let mut i: usize = 0;
        assert(self.d@.take(0) == Seq::<u32>::empty());
        assert(other.d@.take(0) == Seq::<u32>::empty());
        assert(0 * base_pow(0) == 0) by (nonlinear_arith);
        while i < n
            invariant
                i <= n,
                d@.len() == i,
                carry <= 1,
                limbs_value(d@) + carry * base_pow(i as nat) == low_value(self.d@, i as int)
                    + low_value(other.d@, i as int),
            decreases n - i,
        {
            let a = self.limb(i);
            let b = other.limb(i);
            let t: u64 = a as u64 + b as u64 + carry;
            let low = (t % 0x1_0000_0000) as u32;
            let ghost c0 = carry;
            carry = t / 0x1_0000_0000;
            proof {
                lemma_low_step(self.d@, i as int);
                lemma_low_step(other.d@, i as int);
                let p = base_pow(i as nat);
                assert(d@.push(low).drop_last() == d@);
                assert(low as int * p + carry as int * (base() * p) == a as int * p + b as int * p
                    + c0 as int * p) by (nonlinear_arith)
                    requires
                        carry as int * 0x1_0000_0000 + low as int == a as int + b as int + c0 as int,
                        base() == 0x1_0000_0000,
                ;
                assert(carry as int * base_pow((i + 1) as nat) == carry as int * (base() * p));
            }
            d.push(low);
            i += 1;
        }
        let ghost before = d@;
        d.push(carry as u32);
        proof {
            assert(d@.drop_last() == before);
            assert(self.d@.take(self.d@.len() as int) == self.d@);
            assert(other.d@.take(other.d@.len() as int) == other.d@);
        }
        Uint::from_limbs(d)
    }

    /// The difference, where it is not negative.
    pub fn sub(&self, other: &Self) -> (r: Self)
        requires
            self.wf(),
            other.wf(),
            self.value() >= other.value(),
        ensures
            r.wf(),
            r.value() == self.value() - other.value(),
            r.limbs().len() <= self.limbs().len(),
    {
        let n: usize = self.d.len();
        proof {
            if other.d@.len() > n {
                lemma_limbs_bound(self.d@);
                lemma_limbs_at_least(other.d@);
                lemma_base_pow_monotone(n as nat, (other.d@.len() - 1) as nat);
                assert(false);
            }
        }
        let mut d: Vec<u32> = Vec::new();
        let mut borrow: u64 = 0;
        let mut i: usize = 0;
        assert(self.d@.take(0) == Seq::<u32>::empty());
        assert(other.d@.take(0) == Seq::<u32>::empty());
        assert(0 * base_pow(0) == 0) by (nonlinear_arith);
        while i < n
            invariant
                i <= n,
                n == self.d@.len(),
                d@.len() == i,
                borrow <= 1,
                limbs_value(d@) + low_value(other.d@, i as int) == low_value(self.d@, i as int)
                    + borrow * base_pow(i as nat),
            decreases n - i,
        {
            let a = self.d[i] as u64;
            let b = other.limb(i) as u64;
            let ghost b0 = borrow;
            let low: u32;
            if a >= b + borrow {
                low = (a - b - borrow) as u32;
                borrow = 0;
            } else {
                low = (a + 0x1_0000_0000 - b - borrow) as u32;
                borrow = 1;
            }
            proof {
                lemma_low_step(self.d@, i as int);
                lemma_low_step(other.d@, i as int);
                let p = base_pow(i as nat);
                assert(d@.push(low).drop_last() == d@);
                assert(low as int * p + b as int * p + b0 as int * p == a as int * p + borrow as int
                    * (base() * p)) by (nonlinear_arith)
                    requires
                        low as int + b as int + b0 as int == a as int + borrow as int * 0x1_0000_0000,
                        base() == 0x1_0000_0000,
                ;
                assert(borrow as int * base_pow((i + 1) as nat) == borrow as int * (base() * p));
            }
            d.push(low);
            i += 1;
        }
        proof {
            assert(self.d@.take(self.d@.len() as int) == self.d@);
            assert(other.d@.take(other.d@.len() as int) == other.d@);
            lemma_limbs_bound(d@);
            let p = base_pow(n as nat);
            if borrow == 1 {
                assert(1 * p == p) by (nonlinear_arith);
                assert(false);
            }
            assert(0 * p == 0) by (nonlinear_arith);
        }
        Uint::from_limbs(d)
    }

    /// The product.
    pub fn mul(&self, other: &Self) -> (r: Self)
        requires
            self.limbs().len() + other.limbs().len() < usize::MAX,
        ensures
            r.wf(),
            r.value() == self.value() * other.value(),
            r.limbs().len() <= self.limbs().len() + other.limbs().len() + 1,
    {
        let n: usize = self.d.len();
        let m: usize = other.d.len();
        let mut d = zeros(n + m + 1);
        let mut i: usize = 0;
        proof {
            lemma_limbs_all_zero(d@);
            assert(self.d@.take(0) == Seq::<u32>::empty());
            assert(0 * other.value() == 0) by (nonlinear_arith);
        }
        while i < n
            invariant
                i <= n,
                n == self.d@.len(),
                m == other.d@.len(),
                n + m < usize::MAX,
                d@.len() == n + m + 1,
                limbs_value(d@) == limbs_value(self.d@.take(i as int)) * other.value(),
                forall|k: int| i + m <= k < d@.len() ==> d@[k] == 0,
            decreases n - i,
        {
            let a = self.d[i] as u64;
            let mut carry: u64 = 0;
            let mut j: usize = 0;
            let ghost start = limbs_value(d@) as int;
            let ghost pi = base_pow(i as nat) as int;
            proof {
                assert(other.d@.take(0) == Seq::<u32>::empty());
                assert(a * pi * 0 == 0) by (nonlinear_arith);
                assert(0 * base_pow(i as nat) == 0) by (nonlinear_arith);
            }
            while j < m
                invariant
                    i < n,
                    j <= m,
                    n == self.d@.len(),
                    m == other.d@.len(),
                    n + m < usize::MAX,
                    d@.len() == n + m + 1,
                    a == self.d@[i as int],
                    pi == base_pow(i as nat),
                    carry < 0x1_0000_0000,
                    limbs_value(d@) + carry * base_pow((i + j) as nat) == start + a * pi * limbs_value(
                        other.d@.take(j as int),
                    ),
                    forall|k: int| i + m <= k < d@.len() ==> d@[k] == 0,
                decreases m - j,
            {
                let b = other.d[j] as u64;
                let x = d[i + j] as u64;
                let ghost c0 = carry;
                assert(0 <= a * b <= 0xffff_ffff * 0xffff_ffff) by (nonlinear_arith)
                    requires
                        0 <= a <= 0xffff_ffff,
                        0 <= b <= 0xffff_ffff,
                ;
                let t: u64 = x + a * b + carry;
                let low = (t % 0x1_0000_0000) as u32;
                carry = t / 0x1_0000_0000;
                proof {
                    lemma_limbs_update(d@, (i + j) as int, low);
                    lemma_limbs_step(other.d@, j as int);
                    lemma_base_pow_adds(i as nat, j as nat);
                    let p = base_pow((i + j) as nat) as int;
                    let pj = base_pow(j as nat) as int;
                    let vb = limbs_value(other.d@.take(j as int)) as int;
                    let ab = a * b;
                    assert(base_pow((i + j + 1) as nat) == base() * p);
                    assert(low as int * p + carry as int * (base() * p) == x as int * p + ab * p
                        + c0 as int * p) by (nonlinear_arith)
                        requires
                            carry as int * 0x1_0000_0000 + low as int == x as int + ab + c0 as int,
                            base() == 0x1_0000_0000,
                    ;
                    assert(a * pi * (vb + b as int * pj) == a * pi * vb + (a * b) * (pi * pj))
                        by (nonlinear_arith);
                    assert(p == pi * pj);
                }
                d.set(i + j, low);
                j += 1;
            }
            proof {
                assert(other.d@.take(m as int) == other.d@);
                lemma_limbs_update(d@, (i + m) as int, carry as u32);
                lemma_limbs_step(self.d@, i as int);
                let va = limbs_value(self.d@.take(i as int)) as int;
                let vb = other.value() as int;
                assert((va + a as int * pi) * vb == va * vb + a * pi * vb) by (nonlinear_arith);
                assert(0int * base_pow((i + m) as nat) == 0) by (nonlinear_arith);
                assert(limbs_value(d@.update((i + m) as int, carry as u32)) == limbs_value(d@) + carry
                    * base_pow((i + m) as nat));
            }
            d.set(i + m, carry as u32);
            i += 1;
        }
        assert(self.d@.take(n as int) == self.d@);
        Uint::from_limbs(d)
    }
}

/// A smaller number in its shortest form has no more limbs.
proof fn lemma_fewer_limbs(a: Uint, b: Uint)
    requires
        a.wf(),
        b.wf(),
        a.value() <= b.value(),
    ensures
        a.limbs().len() <= b.limbs().len(),
{
    if a.limbs().len() > b.limbs().len() {
        lemma_limbs_bound(b.limbs());
        lemma_limbs_at_least(a.limbs());
        lemma_base_pow_monotone(b.limbs().len(), (a.limbs().len() - 1) as nat);
    }
}

/// What raising to a power modulo `m` gives; a modulus of zero gives zero.
pub open spec fn mod_power(v: nat, e: nat, m: nat) -> nat {
    if e == 0 {
        1
    } else if m == 0 {
        0
    } else {
        (pow(v as int, e) % m as int) as nat
    }
}

proof fn lemma_pow_halves(b: int, e: nat)
    ensures
        pow(b, e) == pow(b * b, e / 2) * (if e % 2 == 1 {
            b
        } else {
            1
        }),
{
    vstd::arithmetic::power::lemma_pow_multiplies(b, 2, e / 2);
    vstd::arithmetic::power::lemma_square_is_pow2(b);
    vstd::arithmetic::power::lemma_pow1(b);
    let h = e / 2;
    if e % 2 == 1 {
        vstd::arithmetic::power::lemma_pow_adds(b, 2 * h, 1);
        assert(e == 2 * h + 1);
    } else {
        assert(e == 2 * h);
    }
    assert(b * b == pow(b, 2));
    assert(pow(pow(b, 2), h) == pow(b, 2 * h));
}

proof fn lemma_modpow_step(r: int, b: int, e: nat, m: int)
    requires
        m > 0,
    ensures
        e % 2 == 1 ==> (((r * b) % m) * pow((b * b) % m, e / 2)) % m == (r * pow(b, e)) % m,
        e % 2 == 0 ==> (r * pow((b * b) % m, e / 2)) % m == (r * pow(b, e)) % m,
{
    let h = e / 2;
    let sq = b * b;
    let p = pow(sq, h);
    lemma_pow_halves(b, e);
    vstd::arithmetic::power::lemma_pow_mod_noop(sq, h, m);
    let pm = pow(sq % m, h);
    assert(pm % m == p % m);
    if e % 2 == 1 {
        let rb = r * b;
        vstd::arithmetic::div_mod::lemma_mul_mod_noop_general(rb % m, pm, m);
        vstd::arithmetic::div_mod::lemma_mul_mod_noop_general(rb, p, m);
        vstd::arithmetic::div_mod::lemma_mod_twice(rb, m);
        assert(rb * p == r * (p * b)) by (nonlinear_arith)
            requires
                rb == r * b,
        ;
    } else {
        vstd::arithmetic::div_mod::lemma_mul_mod_noop_general(r, pm, m);
        vstd::arithmetic::div_mod::lemma_mul_mod_noop_general(r, p, m);
        assert(p * 1 == p) by (nonlinear_arith);
    }
}

impl Uint {
    /// The remainder; a modulus of zero gives zero.
    pub fn rem(&self, m: &Self) -> (r: Self)
        requires
            self.wf(),
            m.wf(),
            (self.limbs().len() + 2) * 32 <= usize::MAX,
            (m.limbs().len() + 2) * 32 <= usize::MAX,
        ensures
            r.wf(),
            m.value() == 0 ==> r.value() == 0,
            m.value() > 0 ==> r.value() == self.value() % m.value(),
            r.limbs().len() <= m.limbs().len(),
    {
        let mbits = m.bitlen();
        if mbits == 0 {
            return Uint::from_u32(0);
        }
        let ghost mv = m.value();
        if self.is_less(m) {
            let c = self.copy();
            proof {
                lemma_fewer_limbs(*self, *m);
                vstd::arithmetic::div_mod::lemma_small_mod(self.value(), mv);
            }
            return c;
        }
        let mut a = self.copy();
        let abits = a.bitlen();
        proof {
            if abits < mbits {
                if abits + 1 < mbits {
                    vstd::arithmetic::power2::lemma_pow2_strictly_increases(
                        abits as nat,
                        (mbits - 1) as nat,
                    );
                }
                assert(false);
            }
        }
        let shift: usize = abits - mbits;
        let mut i: usize = shift + 1;
        proof {
            vstd::arithmetic::power2::lemma_pow2_adds((mbits - 1) as nat, (shift + 1) as nat);
            assert((mbits - 1) + (shift + 1) == abits);
            assert(pow2(abits as nat) <= mv * pow2((shift + 1) as nat)) by (nonlinear_arith)
                requires
                    pow2(abits as nat) == pow2((mbits - 1) as nat) * pow2((shift + 1) as nat),
                    pow2((mbits - 1) as nat) <= mv,
            ;
        }
        while i > 0
            invariant
                i <= shift + 1,
                shift <= self.limbs().len() * 32,
                self.limbs().len() + m.limbs().len() + 2 <= usize::MAX,
                a.wf(),
                m.wf(),
                mv == m.value(),
                mv > 0,
                a.value() < mv * pow2(i as nat),
                a.value() % mv == self.value() % mv,
            decreases i,
        {
            i -= 1;
            let s = m.shl(i);
            proof {
                vstd::arithmetic::power2::lemma_pow2_unfold((i + 1) as nat);
                assert(mv * pow2((i + 1) as nat) == 2 * (mv * pow2(i as nat))) by (nonlinear_arith)
                    requires
                        pow2((i + 1) as nat) == 2 * pow2(i as nat),
                ;
            }
            if !a.is_less(&s) {
                let b = a.sub(&s);
                proof {
                    let k = pow2(i as nat) as int;
                    vstd::arithmetic::div_mod::lemma_mod_multiples_vanish(
                        -k,
                        a.value() as int,
                        mv as int,
                    );
                    assert(mv as int * (-k) + a.value() == a.value() - mv as int * k)
                        by (nonlinear_arith);
                }
                a = b;
            }
        }
        proof {
            vstd::arithmetic::power2::lemma2_to64();
            assert(mv * 1 == mv) by (nonlinear_arith);
            lemma_fewer_limbs(a, *m);
            vstd::arithmetic::div_mod::lemma_small_mod(a.value(), mv);
        }
        a
    }

    /// The number to the power `exp`, modulo `m`.
    pub fn modpow(&self, exp: u32, m: &Self) -> (r: Self)
        requires
            self.wf(),
            m.wf(),
            (self.limbs().len() + 2) * 32 <= usize::MAX,
            (2 * m.limbs().len() + 3) * 32 <= usize::MAX,
        ensures
            r.wf(),
            r.value() == mod_power(self.value(), exp as nat, m.value()),
    {
        let mut result = Uint::from_u32(1);
        let mut base = self.rem(m);
        let mut e: u32 = exp;
        let ghost v = self.value() as int;
        let ghost mv = m.value() as int;
        proof {
            if mv > 0 {
                vstd::arithmetic::power::lemma_pow_mod_noop(v, exp as nat, mv);
                assert(1 * pow(base.value() as int, exp as nat) == pow(
                    base.value() as int,
                    exp as nat,
                )) by (nonlinear_arith);
            }
        }
        while e > 0
            invariant
                m.wf(),
                base.wf(),
                result.wf(),
                mv == m.value(),
                base.limbs().len() <= m.limbs().len(),
                result.limbs().len() <= m.limbs().len(),
                (2 * m.limbs().len() + 3) * 32 <= usize::MAX,
                exp == 0 ==> e == 0 && result.value() == 1,
                mv == 0 ==> base.value() == 0 && (exp > 0 && e == 0 ==> result.value() == 0),
                mv > 0 && exp > 0 && e == 0 ==> result.value() < mv,
                mv > 0 ==> (result.value() * pow(base.value() as int, e as nat)) % mv == pow(
                    v,
                    exp as nat,
                ) % mv,
            decreases e,
        {
            let ghost r0 = result.value() as int;
            let ghost b0 = base.value() as int;
            let ghost e0 = e as nat;
            proof {
                if mv > 0 {
                    lemma_modpow_step(r0, b0, e0, mv);
                    vstd::arithmetic::power::lemma_pow0((b0 * b0) % mv);
                    vstd::arithmetic::power::lemma_pow0(b0);
                }
                assert(r0 * 0 == 0) by (nonlinear_arith);
                assert(0 * b0 == 0) by (nonlinear_arith);
            }
            if e % 2 == 1 {
                result = result.mul(&base).rem(m);
            }
            e = e / 2;
            if e > 0 {
                base = base.mul(&base).rem(m);
            }
        }
        proof {
            if mv > 0 {
                vstd::arithmetic::power::lemma_pow0(base.value() as int);
                assert(result.value() * 1 == result.value()) by (nonlinear_arith);
                if exp > 0 {
                    vstd::arithmetic::div_mod::lemma_small_mod(result.value(), mv as nat);
                }
            }
        }
        result
    }
}

} // verus!
