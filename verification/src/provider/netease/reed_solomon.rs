//! Reed-Solomon check codewords over the field of 256 elements.

use vstd::prelude::*;

verus! {

// --------------------------------------------------------------------- field

/// Doubling: a shift, reduced by `x^8 + x^4 + x^3 + x^2 + 1`.
pub open spec fn twice(a: u8) -> u8 {
    if a >= 128 {
        ((a * 2 - 256) as u8) ^ 0x1d
    } else {
        (a * 2) as u8
    }
}

/// The product: the sum of the doublings of `a` that the bits of `b` select.
pub open spec fn product(a: u8, b: u8) -> u8
    decreases b,
{
    if b == 0 {
        0
    } else {
        (if b % 2 == 1 {
            a
        } else {
            0
        }) ^ product(twice(a), b / 2)
    }
}

pub open spec fn power(x: u8, e: nat) -> u8
    decreases e,
{
    if e == 0 {
        1
    } else {
        product(power(x, (e - 1) as nat), x)
    }
}

fn double(a: u8) -> (r: u8)
    ensures
        r == twice(a),
{
    if a >= 128 {
        ((a as u16 * 2 - 256) as u8) ^ 0x1d
    } else {
        a * 2
    }
}

proof fn lemma_xor()
    ensures
        forall|a: u8| #[trigger] (a ^ 0) == a,
        forall|a: u8| #[trigger] (0 ^ a) == a,
        forall|a: u8| #[trigger] (a ^ a) == 0,
        forall|a: u8, b: u8, c: u8| #[trigger] ((a ^ b) ^ c) == a ^ (b ^ c),
        forall|a: u8, b: u8| #[trigger] (a ^ b) == b ^ a,
{
    assert(forall|a: u8| #[trigger] (a ^ 0) == a) by (bit_vector);
    assert(forall|a: u8| #[trigger] (0 ^ a) == a) by (bit_vector);
    assert(forall|a: u8| #[trigger] (a ^ a) == 0) by (bit_vector);
    assert(forall|a: u8, b: u8, c: u8| #[trigger] ((a ^ b) ^ c) == a ^ (b ^ c)) by (bit_vector);
    assert(forall|a: u8, b: u8| #[trigger] (a ^ b) == b ^ a) by (bit_vector);
}

pub fn gf_mul(a: u8, b: u8) -> (r: u8)
    ensures
        r == product(a, b),
{
    let mut p: u8 = 0;
    let mut x: u8 = a;
    let mut y: u8 = b;
    proof {
        lemma_xor();
    }
    while y > 0
        invariant
            product(a, b) == p ^ product(x, y),
        decreases y,
    {
        proof {
            lemma_xor();
        }
        let ghost p0 = p;
        if y % 2 == 1 {
            p = p ^ x;
        }
        x = double(x);
        y = y / 2;
    }
    p
}

pub fn gf_pow(x: u8, exp: usize) -> (r: u8)
    ensures
        r == power(x, exp as nat),
{
    let mut v: u8 = 1;
    let mut i: usize = 0;
    while i < exp
        invariant
            i <= exp,
            v == power(x, i as nat),
        decreases exp - i,
    {
        v = gf_mul(v, x);
        i += 1;
    }
    v
}

// --------------------------------------------------------------- polynomials

pub open spec fn coef(p: Seq<u8>, i: int) -> u8 {
    if 0 <= i < p.len() {
        p[i]
    } else {
        0
    }
}

/// `g` times `x + c`, the highest power first.
pub open spec fn times_linear(g: Seq<u8>, c: u8) -> Seq<u8> {
    Seq::new(g.len() + 1, |i: int| coef(g, i) ^ product(coef(g, i - 1), c))
}

/// The product of `x + 2^i` for all `i` below `n`.
pub open spec fn generator(n: nat) -> Seq<u8>
    decreases n,
{
    if n == 0 {
        seq![1u8]
    } else {
        times_linear(generator((n - 1) as nat), power(2, (n - 1) as nat))
    }
}

/// `p` with the multiple of `g` that cancels its coefficient `i` taken away.
pub open spec fn cancelled(p: Seq<u8>, g: Seq<u8>, i: int) -> Seq<u8> {
    Seq::new(p.len(), |k: int| p[k] ^ product(coef(g, k - i), p[i]))
}

/// Long division: the first `n` coefficients cancelled in turn.
pub open spec fn divided(p: Seq<u8>, g: Seq<u8>, n: int) -> Seq<u8>
    decreases n,
{
    if n <= 0 {
        p
    } else {
        cancelled(divided(p, g, n - 1), g, n - 1)
    }
}

/// The check codewords: the remainder of the data, moved up by `n` places,
/// divided by the generator.
pub open spec fn check_of(data: Seq<u8>, n: nat) -> Seq<u8> {
    divided(data + Seq::new(n, |i: int| 0u8), generator(n), data.len() as int).skip(
        data.len() as int,
    )
}

proof fn lemma_divided_len(p: Seq<u8>, g: Seq<u8>, n: int)
    ensures
        divided(p, g, n).len() == p.len(),
    decreases n,
{
    if n > 0 {
        lemma_divided_len(p, g, n - 1);
    }
}

pub proof fn lemma_check_len(data: Seq<u8>, n: nat)
    ensures
        check_of(data, n).len() == n,
{
    lemma_divided_len(data + Seq::new(n, |i: int| 0u8), generator(n), data.len() as int);
}

proof fn lemma_generator_len(n: nat)
    ensures
        generator(n).len() == n + 1,
    decreases n,
{
    if n > 0 {
        lemma_generator_len((n - 1) as nat);
    }
}

fn coef_at(p: &[u8], i: usize) -> (r: u8)
    ensures
        r == coef(p@, i as int),
{
    if i < p.len() {
        p[i]
    } else {
        0
    }
}

fn mul_linear(g: &[u8], c: u8) -> (r: Vec<u8>)
    requires
        g@.len() < usize::MAX,
    ensures
        r@ == times_linear(g@, c),
{
    let mut out: Vec<u8> = Vec::new();
    let n: usize = g.len() + 1;
    let mut i: usize = 0;
    while i < n
        invariant
            i <= n,
            n == g@.len() + 1,
            out@ =~= times_linear(g@, c).take(i as int),
        decreases n - i,
    {
        let below: u8 = if i == 0 {
            0
        } else {
            g[i - 1]
        };
        out.push(coef_at(g, i) ^ gf_mul(below, c));
        i += 1;
    }
    out
}

/// The generator polynomial for `nsym` check codewords.
pub fn rs_generator(nsym: usize) -> (r: Vec<u8>)
    requires
        nsym < usize::MAX - 1,
    ensures
        r@ == generator(nsym as nat),
{
    let mut g: Vec<u8> = Vec::new();
    g.push(1);
    assert(g@ =~= generator(0));
    let mut i: usize = 0;
    while i < nsym
        invariant
            i <= nsym,
            nsym < usize::MAX - 1,
            g@ == generator(i as nat),
        decreases nsym - i,
    {
        proof {
            lemma_generator_len(i as nat);
        }
        g = mul_linear(g.as_slice(), gf_pow(2, i));
        i += 1;
    }
    g
}

/// The `nsym` check codewords of `data`.
pub fn rs(data: &[u8], nsym: usize) -> (r: Vec<u8>)
    requires
        data@.len() + nsym < usize::MAX - 1,
    ensures
        r@ == check_of(data@, nsym as nat),
{
    let g = rs_generator(nsym);
    let n: usize = data.len();
    let mut res: Vec<u8> = vstd::slice::slice_to_vec(data);
    let mut z: usize = 0;
    while z < nsym
        invariant
            z <= nsym,
            res@ =~= data@ + Seq::new(z as nat, |i: int| 0u8),
        decreases nsym - z,
    {
        res.push(0);
        z += 1;
    }
    let ghost start = res@;
    proof {
        lemma_generator_len(nsym as nat);
    }
    let mut i: usize = 0;
    while i < n
        invariant
            i <= n,
            n == data@.len(),
            n + nsym < usize::MAX - 1,
            start.len() == n + nsym,
            res@.len() == n + nsym,
            g@ == generator(nsym as nat),
            g@.len() == nsym + 1,
            res@ =~= divided(start, g@, i as int),
        decreases n - i,
    {
        let lead = res[i];
        let ghost before = res@;
        let mut j: usize = 0;
        proof {
            lemma_xor();
        }
        while j < g.len()
            invariant
                j <= g@.len(),
                i < n,
                n + nsym < usize::MAX - 1,
                g@.len() == nsym + 1,
                before.len() == n + nsym,
                res@.len() == n + nsym,
                lead == before[i as int],
                forall|k: int|
                    0 <= k < res@.len() ==> #[trigger] res@[k] == (if i <= k < i + j {
                        before[k] ^ product(coef(g@, k - i), lead)
                    } else {
                        before[k]
                    }),
            decreases g@.len() - j,
        {
            let v = res[i + j] ^ gf_mul(g[j], lead);
            res.set(i + j, v);
            j += 1;
        }
        proof {
            lemma_product_zero(lead);
        }
        assert(res@ =~= cancelled(before, g@, i as int));
        i += 1;
    }
    let out = vstd::slice::slice_to_vec(vstd::slice::slice_subrange(res.as_slice(), n, res.len()));
    assert(out@ =~= check_of(data@, nsym as nat));
    out
}

proof fn lemma_product_zero(b: u8)
    ensures
        product(0, b) == 0,
    decreases b,
{
    lemma_xor();
    if b > 0 {
        lemma_product_zero(b / 2);
    }
}

// ---------------------------------------------------------------------- laws

/// The value of a polynomial at `x`, the highest power first.
pub open spec fn value_at(p: Seq<u8>, x: u8) -> u8
    decreases p.len(),
{
    if p.len() == 0 {
        0
    } else {
        product(value_at(p.drop_last(), x), x) ^ p.last()
    }
}

proof fn lemma_twice_linear(a: u8, b: u8)
    ensures
        twice(a ^ b) == twice(a) ^ twice(b),
{
    lemma_twice_bits(a);
    lemma_twice_bits(b);
    lemma_twice_bits(a ^ b);
    assert(((a ^ b) << 1) ^ (if (a ^ b) & 0x80 != 0 { 0x1du8 } else { 0u8 }) == ((a << 1) ^ (if a
        & 0x80 != 0 { 0x1du8 } else { 0u8 })) ^ ((b << 1) ^ (if b & 0x80 != 0 { 0x1du8 } else {
        0u8
    }))) by (bit_vector);
}

proof fn lemma_twice_bits(a: u8)
    ensures
        twice(a) == (a << 1) ^ (if a & 0x80 != 0 { 0x1du8 } else { 0u8 }),
{
    assert(a >= 128 ==> a & 0x80 != 0 && a << 1 == (a * 2 - 256)) by (bit_vector);
    assert(a < 128 ==> a & 0x80 == 0 && a << 1 == a * 2) by (bit_vector);
    lemma_xor();
}

proof fn lemma_product_linear(a: u8, b: u8, c: u8)
    ensures
        product(a ^ b, c) == product(a, c) ^ product(b, c),
    decreases c,
{
    lemma_xor();
    if c > 0 {
        lemma_twice_linear(a, b);
        lemma_product_linear(twice(a), twice(b), c / 2);
        let p = product(twice(a), c / 2);
        let q = product(twice(b), c / 2);
        if c % 2 == 1 {
            assert((a ^ b) ^ (p ^ q) == (a ^ p) ^ (b ^ q)) by (bit_vector);
        }
    }
}

proof fn lemma_product_twice(a: u8, b: u8)
    ensures
        product(twice(a), b) == twice(product(a, b)),
    decreases b,
{
    lemma_xor();
    if b > 0 {
        lemma_product_twice(twice(a), b / 2);
        lemma_twice_linear(
            if b % 2 == 1 {
                a
            } else {
                0
            },
            product(twice(a), b / 2),
        );
    }
}

/// Multiplying by `b` and by `c` gives the same in either order.
proof fn lemma_product_commutes(v: u8, b: u8, c: u8)
    ensures
        product(product(v, b), c) == product(product(v, c), b),
    decreases b,
{
    lemma_xor();
    lemma_product_zero(c);
    if b > 0 {
        let first = if b % 2 == 1 {
            v
        } else {
            0
        };
        lemma_product_linear(first, product(twice(v), b / 2), c);
        lemma_product_commutes(twice(v), b / 2, c);
        lemma_product_twice(v, c);
    }
}

spec fn sum_of(p: Seq<u8>, q: Seq<u8>) -> Seq<u8> {
    Seq::new(p.len(), |i: int| p[i] ^ q[i])
}

spec fn scaled(p: Seq<u8>, c: u8) -> Seq<u8> {
    p.map_values(|a: u8| product(a, c))
}

proof fn lemma_value_sum(p: Seq<u8>, q: Seq<u8>, x: u8)
    requires
        p.len() == q.len(),
    ensures
        value_at(sum_of(p, q), x) == value_at(p, x) ^ value_at(q, x),
    decreases p.len(),
{
    lemma_xor();
    if p.len() > 0 {
        lemma_value_sum(p.drop_last(), q.drop_last(), x);
        assert(sum_of(p, q).drop_last() =~= sum_of(p.drop_last(), q.drop_last()));
        lemma_product_linear(value_at(p.drop_last(), x), value_at(q.drop_last(), x), x);
        let a = product(value_at(p.drop_last(), x), x);
        let b = product(value_at(q.drop_last(), x), x);
        let c = p.last();
        let d = q.last();
        assert((a ^ b) ^ (c ^ d) == (a ^ c) ^ (b ^ d)) by (bit_vector);
    }
}

proof fn lemma_value_scaled(p: Seq<u8>, c: u8, x: u8)
    ensures
        value_at(scaled(p, c), x) == product(value_at(p, x), c),
    decreases p.len(),
{
    lemma_product_zero(c);
    if p.len() > 0 {
        let f = p.drop_last();
        lemma_value_scaled(f, c, x);
        assert(scaled(p, c).drop_last() =~= scaled(f, c));
        lemma_product_commutes(value_at(f, x), c, x);
        lemma_product_linear(product(value_at(f, x), x), p.last(), c);
    }
}

proof fn lemma_value_zeros_after(p: Seq<u8>, n: nat, x: u8)
    requires
        value_at(p, x) == 0,
    ensures
        value_at(p + Seq::new(n, |i: int| 0u8), x) == 0,
    decreases n,
{
    lemma_xor();
    let z = Seq::new(n, |i: int| 0u8);
    if n == 0 {
        assert(p + z =~= p);
    } else {
        let m = (n - 1) as nat;
        lemma_value_zeros_after(p, m, x);
        assert((p + z).drop_last() =~= p + Seq::new(m, |i: int| 0u8));
        lemma_product_zero(x);
    }
}

proof fn lemma_value_zeros_before(p: Seq<u8>, n: nat, x: u8)
    ensures
        value_at(Seq::new(n, |i: int| 0u8) + p, x) == value_at(p, x),
    decreases p.len() + n,
{
    lemma_xor();
    let z = Seq::new(n, |i: int| 0u8);
    if p.len() > 0 {
        lemma_value_zeros_before(p.drop_last(), n, x);
        assert((z + p).drop_last() =~= z + p.drop_last());
    } else if n > 0 {
        let m = (n - 1) as nat;
        lemma_value_zeros_before(p, m, x);
        assert((z + p).drop_last() =~= Seq::new(m, |i: int| 0u8) + p);
        lemma_product_zero(x);
    } else {
        assert(z + p =~= p);
    }
}

proof fn lemma_value_times_linear(g: Seq<u8>, c: u8, x: u8)
    requires
        g.len() > 0,
    ensures
        value_at(times_linear(g, c), x) == product(value_at(g, x), x) ^ product(value_at(g, x), c),
{
    lemma_xor();
    let up = g + seq![0u8];
    let z = Seq::new(1, |i: int| 0u8);
    let down = z + scaled(g, c);
    lemma_product_zero(c);
    assert(times_linear(g, c) =~= sum_of(up, down));
    lemma_value_sum(up, down, x);
    assert(up.drop_last() =~= g);
    lemma_value_zeros_before(scaled(g, c), 1, x);
    lemma_value_scaled(g, c, x);
}

/// The generator vanishes at its roots.
proof fn lemma_generator_roots(n: nat, i: nat)
    requires
        i < n,
    ensures
        value_at(generator(n), power(2, i)) == 0,
    decreases n,
{
    lemma_xor();
    let m = (n - 1) as nat;
    let x = power(2, i);
    lemma_generator_len(m);
    lemma_value_times_linear(generator(m), power(2, m), x);
    if i < m {
        lemma_generator_roots(m, i);
        lemma_product_zero(x);
        lemma_product_zero(power(2, m));
    }
}

proof fn lemma_divided_value(p: Seq<u8>, g: Seq<u8>, n: int, x: u8)
    requires
        0 <= n,
        g.len() > 0,
        n + g.len() - 1 <= p.len(),
        value_at(g, x) == 0,
    ensures
        value_at(divided(p, g, n), x) == value_at(p, x),
    decreases n,
{
    lemma_xor();
    if n > 0 {
        lemma_divided_value(p, g, n - 1, x);
        lemma_divided_len(p, g, n - 1);
        let q = divided(p, g, n - 1);
        let c = q[n - 1];
        let front = Seq::new((n - 1) as nat, |i: int| 0u8);
        let back = Seq::new((p.len() - (n - 1) - g.len()) as nat, |i: int| 0u8);
        let mid = scaled(g, c);
        let multiple = front + (mid + back);
        lemma_product_zero(c);
        assert(cancelled(q, g, n - 1) =~= sum_of(q, multiple));
        lemma_value_sum(q, multiple, x);
        lemma_value_scaled(g, c, x);
        lemma_value_zeros_after(mid, back.len(), x);
        lemma_value_zeros_before(mid + back, front.len(), x);
    }
}

proof fn lemma_divided_front(p: Seq<u8>, g: Seq<u8>, n: int)
    requires
        0 <= n <= p.len(),
        g.len() > 0,
        g[0] == 1,
    ensures
        forall|k: int| 0 <= k < n ==> #[trigger] divided(p, g, n)[k] == 0,
    decreases n,
{
    lemma_xor();
    if n > 0 {
        lemma_divided_front(p, g, n - 1);
        lemma_divided_len(p, g, n - 1);
        let q = divided(p, g, n - 1);
        lemma_product_one(q[n - 1]);
        lemma_product_zero(q[n - 1]);
        assert forall|k: int| 0 <= k < n implies #[trigger] divided(p, g, n)[k] == 0 by {
            assert(divided(p, g, n)[k] == q[k] ^ product(coef(g, k - (n - 1)), q[n - 1]));
        }
    }
}

proof fn lemma_product_one(b: u8)
    ensures
        product(1, b) == b,
{
    vstd::arithmetic::power2::lemma2_to64();
    lemma_one_times(1, b, 0);
}

/// Multiplying a power of two that does not leave the byte is multiplying.
proof fn lemma_one_times(a: u8, b: u8, e: nat)
    requires
        a == vstd::arithmetic::power2::pow2(e),
        a * b < 256,
    ensures
        product(a, b) == a * b,
    decreases b,
{
    lemma_xor();
    vstd::arithmetic::power2::lemma_pow2_unfold(e + 1);
    assert(a * 0 == 0) by (nonlinear_arith);
    if b > 0 {
        if b / 2 == 0 {
            assert(b == 1);
            assert(a * 1 == a) by (nonlinear_arith);
            assert(product(twice(a), 0) == 0);
        } else {
            assert(a * 2 <= a * b) by (nonlinear_arith)
                requires
                    b >= 2,
                    a >= 0,
            ;
            assert(a < 128);
            let h = b / 2;
            assert(twice(a) * h == a * (2 * h)) by (nonlinear_arith)
                requires
                    twice(a) == a * 2,
            ;
            assert(a * (2 * h) <= a * b) by (nonlinear_arith)
                requires
                    2 * h <= b,
                    a >= 0,
            ;
            lemma_one_times(twice(a), h, e + 1);
            let rest = (a * (2 * h)) as u8;
            if b % 2 == 1 {
                assert(a * b == a * (2 * h) + a) by (nonlinear_arith)
                    requires
                        b == 2 * h + 1,
                ;
                lemma_disjoint_add(a, h, e);
            }
        }
    }
}

proof fn lemma_disjoint_add(a: u8, h: u8, e: nat)
    requires
        a == vstd::arithmetic::power2::pow2(e),
        a * (2 * h) + a < 256,
    ensures
        a ^ ((a * (2 * h)) as u8) == a + a * (2 * h),
{
    vstd::arithmetic::power2::lemma2_to64();
    if e >= 8 {
        if e > 8 {
            vstd::arithmetic::power2::lemma_pow2_strictly_increases(8, e);
        }
        assert(false);
    }
    assert(h <= 128) by (nonlinear_arith)
        requires
            a * (2 * h) + a < 256,
            a >= 1,
    ;
    let m: u8 = h;
    assert(a == 1 || a == 2 || a == 4 || a == 8 || a == 16 || a == 32 || a == 64 || a == 128);
    assert((a == 1 || a == 2 || a == 4 || a == 8 || a == 16 || a == 32 || a == 64 || a == 128) && a
        * (2 * m) + a < 256 ==> a ^ ((a * (2 * m)) as u8) == a + a * (2 * m)) by (bit_vector);
}

proof fn lemma_generator_lead(n: nat)
    ensures
        generator(n).len() > 0,
        generator(n)[0] == 1,
    decreases n,
{
    lemma_xor();
    if n > 0 {
        let m = (n - 1) as nat;
        lemma_generator_lead(m);
        lemma_product_zero(power(2, m));
    }
}

/// Data followed by its check codewords vanishes at every root of the
/// generator, which is what a scanner tests.
pub proof fn law_codeword_vanishes(data: Seq<u8>, n: nat, i: nat)
    requires
        i < n,
    ensures
        value_at(data + check_of(data, n), power(2, i)) == 0,
{
    lemma_xor();
    let x = power(2, i);
    let g = generator(n);
    let z = Seq::new(n, |i: int| 0u8);
    let p = data + z;
    let d = divided(p, g, data.len() as int);
    lemma_generator_roots(n, i);
    lemma_generator_len(n);
    lemma_generator_lead(n);
    lemma_divided_len(p, g, data.len() as int);
    lemma_divided_value(p, g, data.len() as int, x);
    lemma_divided_front(p, g, data.len() as int);
    let front = Seq::new(data.len(), |i: int| 0u8);
    let check = check_of(data, n);
    assert(d =~= front + check);
    lemma_value_zeros_before(check, data.len(), x);
    // the check codewords and the shifted data have the same value
    let low = front + check;
    assert(data + check =~= sum_of(p, low));
    lemma_value_sum(p, low, x);
}

} // verus!
