//! Request encryption: the form fields of one `weapi` call.
//!
//! ```text
//! params    = Base64(AES-128-CBC(Base64(AES-128-CBC(json, preset key)), secret))
//! encSecKey = RSA(secret bytes reversed, no padding, exponent 0x10001), 256 hex digits
//! ```

use vstd::prelude::*;
use crate::json;
use crate::text;
use crate::provider::netease::aes;
use crate::provider::netease::bigint;
use crate::provider::netease::bigint::Uint;

verus! {

pub const PRESET_KEY: &'static str = "0CoJUm6Qyw8W8jud";

pub const IV: &'static str = "0102030405060708";

/// The public modulus.
pub const RSA_MODULUS_HEX: &'static str =
    "e0b509f6259df8642dbc35662901477df22677ec152b5ff68ace615bb7b725152b3ab17a876aea8a5aa76d2e417629ec4ee341f56135fccf695280104e0312ecbda92557c93870114af6c9d05c4f7f0c3685b7a46bee255932575cce10b424d813cfe4875d3e82047b97ddef52741d546b8e289dc6935b3ece0462db0a22b8e7";

pub const RSA_EXP: u32 = 0x10001;

/// What goes out as the form body.
#[derive(Clone, Debug)]
pub struct Payload {
    pub params: String,
    /// Only `weapi` calls carry this field.
    pub enc_sec_key: Option<String>,
}

impl Default for Payload {
    fn default() -> (r: Self)
        ensures
            r.params@ == Seq::<char>::empty(),
            r.enc_sec_key is None,
    {
        Payload { params: String::new(), enc_sec_key: None }
    }
}

// -------------------------------------------------------------------- base64

/// The character for a value below 64.
pub open spec fn sextet_char(v: nat) -> char {
    if v < 26 {
        (65 + v) as u8 as char
    } else if v < 52 {
        (97 + v - 26) as u8 as char
    } else if v < 62 {
        (48 + v - 52) as u8 as char
    } else if v == 62 {
        '+'
    } else {
        '/'
    }
}

/// Three bytes as four sextets.
pub open spec fn quad(a: u8, b: u8, c: u8) -> Seq<char> {
    seq![
        sextet_char(a as nat / 4),
        sextet_char(a as nat % 4 * 16 + b as nat / 16),
        sextet_char(b as nat % 16 * 4 + c as nat / 64),
        sextet_char(c as nat % 64),
    ]
}

/// Standard Base64 with padding.
pub open spec fn base64_text(data: Seq<u8>) -> Seq<char>
    decreases data.len(),
{
    if data.len() == 0 {
        Seq::empty()
    } else if data.len() == 1 {
        quad(data[0], 0, 0).take(2) + seq!['=', '=']
    } else if data.len() == 2 {
        quad(data[0], data[1], 0).take(3) + seq!['=']
    } else {
        quad(data[0], data[1], data[2]) + base64_text(data.skip(3))
    }
}

fn sextet(v: u8) -> (r: char)
    requires
        v < 64,
    ensures
        r == sextet_char(v as nat),
{
    if v < 26 {
        (65 + v) as char
    } else if v < 52 {
        (97 + v - 26) as char
    } else if v < 62 {
        (48 + v - 52) as char
    } else if v == 62 {
        '+'
    } else {
        '/'
    }
}

pub fn base64(data: &[u8]) -> (r: String)
    ensures
        r@ == base64_text(data@),
{
    let mut out = String::new();
    let mut i: usize = 0;
    assert(data@.skip(0) == data@);
    while data.len() - i >= 3
        invariant
            i <= data@.len(),
            base64_text(data@) =~= out@ + base64_text(data@.skip(i as int)),
        decreases data.len() - i,
    {
        let a = data[i];
        let b = data[i + 1];
        let c = data[i + 2];
        out.push(sextet(a / 4));
        out.push(sextet(a % 4 * 16 + b / 16));
        out.push(sextet(b % 16 * 4 + c / 64));
        out.push(sextet(c % 64));
        assert(data@.skip(i as int).skip(3) == data@.skip(i + 3));
        i += 3;
    }
    let ghost rest = data@.skip(i as int);
    let left: usize = data.len() - i;
    if left == 1 {
        let a = data[i];
        out.push(sextet(a / 4));
        out.push(sextet(a % 4 * 16));
        out.push('=');
        out.push('=');
    } else if left == 2 {
        let a = data[i];
        let b = data[i + 1];
        out.push(sextet(a / 4));
        out.push(sextet(a % 4 * 16 + b / 16));
        out.push(sextet(b % 16 * 4));
        out.push('=');
    }
    assert(out@ =~= base64_text(data@));
    out
}

// ----------------------------------------------------------------------- hex

/// Two hexadecimal digits for each byte.
pub open spec fn hex_of(data: Seq<u8>) -> Seq<char>
    decreases data.len(),
{
    if data.len() == 0 {
        Seq::empty()
    } else {
        hex_of(data.drop_last()) + text::hex_text(data.last() as nat, 2, false)
    }
}

pub fn hex(data: &[u8]) -> (r: String)
    ensures
        r@ == hex_of(data@),
{
    let mut out = String::new();
    let mut i: usize = 0;
    assert(data@.take(0) == Seq::<u8>::empty());
    while i < data.len()
        invariant
            i <= data@.len(),
            out@ == hex_of(data@.take(i as int)),
        decreases data.len() - i,
    {
        let two = text::hex_fixed(data[i] as u64, 2, false);
        out.append(two.as_str());
        assert(data@.take(i + 1).drop_last() == data@.take(i as int));
        i += 1;
    }
    assert(data@.take(i as int) == data@);
    out
}

/// The hexadecimal digits of big-endian bytes are those of their number.
pub proof fn law_hex_of_number(data: Seq<u8>)
    ensures
        hex_of(data) == text::hex_text(bigint::be_value(data), 2 * data.len(), false),
    decreases data.len(),
{
    if data.len() > 0 {
        let front = data.drop_last();
        law_hex_of_number(front);
        let v = bigint::be_value(data);
        let b = data.last() as nat;
        reveal_with_fuel(text::hex_text, 3);
        assert(v / 16 / 16 == bigint::be_value(front));
        assert(v / 16 % 16 == b / 16 % 16);
        assert(v % 16 == b % 16);
        assert(2 * data.len() - 2 == 2 * front.len());
        assert(hex_of(data) =~= text::hex_text(v, 2 * data.len(), false));
    }
}

// ----------------------------------------------------------------- form text

/// Bytes that a form body carries as they are.
pub open spec fn form_plain(b: u8) -> bool {
    ||| 0x41 <= b <= 0x5a
    ||| 0x61 <= b <= 0x7a
    ||| 0x30 <= b <= 0x39
    ||| b == 0x2d
    ||| b == 0x5f
    ||| b == 0x2e
    ||| b == 0x7e
}

pub open spec fn form_byte(b: u8) -> Seq<char> {
    if form_plain(b) {
        seq![b as char]
    } else {
        seq!['%'] + text::hex_text(b as nat, 2, true)
    }
}

pub open spec fn form_text(data: Seq<u8>) -> Seq<char>
    decreases data.len(),
{
    if data.len() == 0 {
        Seq::empty()
    } else {
        form_text(data.drop_last()) + form_byte(data.last())
    }
}

/// `application/x-www-form-urlencoded` text.
pub fn form_escape(s: &str) -> (r: String)
    ensures
        r@ == form_text(vstd::utf8::encode_utf8(s@)),
{
    let data = s.as_bytes();
    let mut out = String::new();
    let mut i: usize = 0;
    assert(data@.take(0) == Seq::<u8>::empty());
    while i < data.len()
        invariant
            i <= data@.len(),
            out@ == form_text(data@.take(i as int)),
        decreases data.len() - i,
    {
        let b = data[i];
        let ghost before = out@;
        if (0x41 <= b && b <= 0x5a) || (0x61 <= b && b <= 0x7a) || (0x30 <= b && b <= 0x39) || b
            == 0x2d || b == 0x5f || b == 0x2e || b == 0x7e {
            out.push(b as char);
        } else {
            out.push('%');
            let two = text::hex_fixed(b as u64, 2, true);
            out.append(two.as_str());
        }
        assert(out@ =~= before + form_byte(b));
        assert(data@.take(i + 1).drop_last() == data@.take(i as int));
        i += 1;
    }
    assert(data@.take(i as int) == data@);
    out
}

// ------------------------------------------------------------------- AES-CBC

/// PKCS#7: one to sixteen bytes, each the number of them.
pub open spec fn padded(data: Seq<u8>) -> Seq<u8> {
    let pad = 16 - data.len() as int % 16;
    data + Seq::new(pad as nat, |i: int| pad as u8)
}

/// Cipher block chaining over whole blocks.
pub open spec fn chained(rk: Seq<u8>, prev: Seq<u8>, data: Seq<u8>) -> Seq<u8>
    decreases data.len(),
{
    if data.len() < 16 {
        Seq::empty()
    } else {
        let block = aes::cipher(rk, aes::xored(data.take(16), prev));
        block + chained(rk, block, data.skip(16))
    }
}

/// AES-128-CBC with PKCS#7 padding; nothing for a key or vector of another size.
pub open spec fn cbc(key: Seq<u8>, iv: Seq<u8>, data: Seq<u8>) -> Seq<u8> {
    if key.len() != 16 || iv.len() != 16 {
        Seq::empty()
    } else {
        chained(aes::expanded(key), iv, padded(data))
    }
}

proof fn lemma_chained_len(rk: Seq<u8>, prev: Seq<u8>, data: Seq<u8>)
    requires
        data.len() % 16 == 0,
    ensures
        chained(rk, prev, data).len() == data.len(),
    decreases data.len(),
{
    if data.len() >= 16 {
        let block = aes::cipher(rk, aes::xored(data.take(16), prev));
        lemma_chained_len(rk, block, data.skip(16));
    }
}

/// A ciphertext is the next larger multiple of the block size.
pub proof fn law_cbc_len(key: Seq<u8>, iv: Seq<u8>, data: Seq<u8>)
    requires
        key.len() == 16,
        iv.len() == 16,
    ensures
        cbc(key, iv, data).len() == (data.len() / 16 + 1) * 16,
{
    lemma_chained_len(aes::expanded(key), iv, padded(data));
}

pub fn aes_128_cbc_encrypt(key: &[u8], iv: &[u8], data: &[u8]) -> (r: Vec<u8>)
    ensures
        r@ == cbc(key@, iv@, data@),
{
    let mut out: Vec<u8> = Vec::new();
    if key.len() != 16 || iv.len() != 16 {
        return out;
    }
    let mut src: Vec<u8> = vstd::slice::slice_to_vec(data);
    let pad: usize = 16 - data.len() % 16;
    let mut k: usize = 0;
    while k < pad
        invariant
            k <= pad <= 16,
            pad == 16 - data@.len() as int % 16,
            src@ =~= data@ + Seq::new(k as nat, |i: int| pad as u8),
        decreases pad - k,
    {
        src.push(pad as u8);
        k += 1;
    }
    assert(src@ =~= padded(data@));
    let rk = aes::expand_key(key);
    let mut prev: [u8; 16] = [0u8; 16];
    let mut n: usize = 0;
    while n < 16
        invariant
            n <= 16,
            iv@.len() == 16,
            forall|j: int| 0 <= j < n ==> prev@[j] == iv@[j],
        decreases 16 - n,
    {
        prev[n] = iv[n];
        n += 1;
    }
    assert(prev@ =~= iv@);
    let mut i: usize = 0;
    assert(src@.skip(0) == src@);
    while src.len() - i >= 16
        invariant
            i <= src@.len(),
            chained(rk@, iv@, src@) =~= out@ + chained(rk@, prev@, src@.skip(i as int)),
        decreases src.len() - i,
    {
        let mut block: [u8; 16] = [0u8; 16];
        let mut j: usize = 0;
        while j < 16
            invariant
                j <= 16,
                i + 16 <= src.len(),
                forall|t: int| 0 <= t < j ==> #[trigger] block@[t] == src@[i + t] ^ prev@[t],
            decreases 16 - j,
        {
            block[j] = src[i + j] ^ prev[j];
            j += 1;
        }
        let ghost tail = src@.skip(i as int);
        assert(block@ =~= aes::xored(tail.take(16), prev@));
        let c = aes::encrypt_block(&block, &rk);
        let mut t: usize = 0;
        let ghost before = out@;
        while t < 16
            invariant
                t <= 16,
                out@ =~= before + c@.take(t as int),
            decreases 16 - t,
        {
            out.push(c[t]);
            t += 1;
        }
        assert(c@.take(16) =~= c@);
        assert(tail.skip(16) == src@.skip(i + 16));
        prev = c;
        i += 16;
    }
    assert(out@ =~= chained(rk@, iv@, src@));
    out
}

// ---------------------------------------------------------------- JSON object

/// The members of an object, in the order given.
pub open spec fn members_text(pairs: Seq<(Seq<char>, Seq<char>)>) -> Seq<char>
    decreases pairs.len(),
{
    if pairs.len() == 0 {
        Seq::empty()
    } else {
        let front = pairs.drop_last();
        let comma = if front.len() > 0 {
            seq![',']
        } else {
            Seq::empty()
        };
        members_text(front) + comma + seq!['"'] + json::escaped(pairs.last().0, false) + seq![
            '"',
            ':',
            '"',
        ] + json::escaped(pairs.last().1, false) + seq!['"']
    }
}

pub open spec fn object_text(pairs: Seq<(Seq<char>, Seq<char>)>) -> Seq<char> {
    seq!['{'] + members_text(pairs) + seq!['}']
}

pub open spec fn pair_texts(pairs: Seq<(String, String)>) -> Seq<(Seq<char>, Seq<char>)> {
    pairs.map_values(|p: (String, String)| (p.0@, p.1@))
}

/// A JSON object of strings, its keys in the order given.
pub fn json_object(pairs: &[(String, String)]) -> (r: String)
    ensures
        r@ == object_text(pair_texts(pairs@)),
{
    let mut s = String::new();
    s.push('{');
    let mut i: usize = 0;
    let ghost all = pair_texts(pairs@);
    assert(all.take(0) == Seq::<(Seq<char>, Seq<char>)>::empty());
    assert(s@ =~= seq!['{'] + members_text(all.take(0)));
    while i < pairs.len()
        invariant
            i <= pairs@.len(),
            all == pair_texts(pairs@),
            s@ == seq!['{'] + members_text(all.take(i as int)),
        decreases pairs.len() - i,
    {
        let ghost front = all.take(i as int);
        let ghost next = all.take(i + 1);
        assert(next.drop_last() == front);
        assert(next.last() == (pairs@[i as int].0@, pairs@[i as int].1@));
        if i > 0 {
            s.push(',');
        }
        s.push('"');
        json::push_json_str(&mut s, pairs[i].0.as_str());
        s.push('"');
        s.push(':');
        s.push('"');
        json::push_json_str(&mut s, pairs[i].1.as_str());
        s.push('"');
        assert(s@ =~= seq!['{'] + members_text(next));
        i += 1;
    }
    assert(all.take(i as int) == all);
    s.push('}');
    s
}

// -------------------------------------------------------------------- secret

/// The generator's state after stirring in a clock reading.
pub open spec fn stirred(state: u64, tick: u64) -> u64 {
    let a = state ^ ((tick << 17) | (tick >> 47));
    let b = a ^ (a << 13);
    let c = b ^ (b >> 7);
    let d = c ^ (c << 17);
    if d == 0 {
        0x9E37_79B9_7F4A_7C15
    } else {
        d
    }
}

/// The state of a fresh generator.
pub const SECRET_SEED: u64 = 0xA5A5_5A5A_1234_5678;

pub open spec fn drawn(x: u64, k: nat) -> u64
    decreases k,
{
    if k == 0 {
        x
    } else {
        drawn(x, (k - 1) as nat).wrapping_mul(0x9E37_79B9_7F4A_7C15).wrapping_add(0x6A09_E667)
    }
}

/// `a`-`z`, `A`-`Z`, `0`-`9`.
pub open spec fn base62_char(k: nat) -> char {
    if k < 26 {
        (97 + k) as u8 as char
    } else if k < 52 {
        (65 + k - 26) as u8 as char
    } else {
        (48 + k - 52) as u8 as char
    }
}

/// The sixteen characters that a generator state gives.
pub open spec fn secret_of(x: u64) -> Seq<char> {
    Seq::new(16, |i: int| base62_char((drawn(x, (i + 1) as nat) as usize) as nat % 62))
}

fn base62(k: u8) -> (r: char)
    requires
        k < 62,
    ensures
        r == base62_char(k as nat),
{
    if k < 26 {
        (97 + k) as char
    } else if k < 52 {
        (65 + k - 26) as char
    } else {
        (48 + k - 52) as char
    }
}

/// Stirs the clock reading into the generator and draws a secret from it.
pub fn random_secret(state: &mut u64, tick: u64) -> (r: String)
    ensures
        *final(state) == stirred(*old(state), tick),
        r@ == secret_of(*final(state)),
{
    let mut x: u64 = *state ^ ((tick << 17) | (tick >> 47));
    x = x ^ (x << 13);
    x = x ^ (x >> 7);
    x = x ^ (x << 17);
    if x == 0 {
        x = 0x9E37_79B9_7F4A_7C15;
    }
    *state = x;
    let mut out = String::new();
    let mut z: u64 = x;
    let mut i: usize = 0;
    while i < 16
        invariant
            i <= 16,
            z == drawn(x, i as nat),
            out@ =~= secret_of(x).take(i as int),
        decreases 16 - i,
    {
        z = z.wrapping_mul(0x9E37_79B9_7F4A_7C15).wrapping_add(0x6A09_E667);
        out.push(base62(((z as usize) % 62) as u8));
        i += 1;
    }
    out
}

/// A secret that `weapi` takes: sixteen ASCII characters.
pub open spec fn usable_secret(s: Seq<char>) -> bool {
    s.len() == 16 && forall|i: int| 0 <= i < s.len() ==> #[trigger] s[i] < '\u{80}'
}

/// Every drawn secret is usable, and made of letters and digits.
pub proof fn law_drawn_secret_is_usable(x: u64)
    ensures
        usable_secret(secret_of(x)),
        forall|i: int| 0 <= i < 16 ==> text::is_alnum(#[trigger] secret_of(x)[i]),
{
    assert forall|i: int| 0 <= i < 16 implies text::is_alnum(#[trigger] secret_of(x)[i]) by {
        let k = (drawn(x, (i + 1) as nat) as usize) as nat % 62;
        assert(secret_of(x)[i] == base62_char(k));
        assert(k < 62);
    }
    assert forall|i: int| 0 <= i < 16 implies #[trigger] secret_of(x)[i] < '\u{80}' by {
        assert(text::is_alnum(secret_of(x)[i]));
    }
}

fn is_usable_secret(s: &str) -> (r: bool)
    ensures
        r == usable_secret(s@),
{
    let cs = text::chars_of(s);
    if cs.len() != 16 {
        return false;
    }
    let mut i: usize = 0;
    while i < 16
        invariant
            i <= 16,
            cs@.len() == 16,
            cs@ == s@,
            forall|j: int| 0 <= j < i ==> #[trigger] cs@[j] < '\u{80}',
        decreases 16 - i,
    {
        if cs[i] >= '\u{80}' {
            assert(!(s@[i as int] < '\u{80}'));
            return false;
        }
        i += 1;
    }
    true
}

// ----------------------------------------------------------------------- RSA

proof fn lemma_utf8_len(s: Seq<char>)
    ensures
        vstd::utf8::encode_utf8(s).len() <= 4 * s.len(),
    decreases s.len(),
{
    reveal_with_fuel(vstd::utf8::encode_utf8, 2);
    if s.len() > 0 {
        lemma_utf8_len(s.drop_first());
    }
}

/// Digits beyond the width do not show.
proof fn lemma_hex_text_mod(v: nat, w: nat)
    ensures
        text::hex_text((v as int % vstd::arithmetic::power::pow(16, w)) as nat, w, false)
            == text::hex_text(v, w, false),
    decreases w,
{
    if w > 0 {
        let u = (w - 1) as nat;
        let m = vstd::arithmetic::power::pow(16, u);
        vstd::arithmetic::power::lemma_pow_positive(16, u);
        vstd::arithmetic::power::lemma_pow_adds(16, 1, u);
        vstd::arithmetic::power::lemma_pow1(16);
        lemma_hex_text_mod(v / 16, u);
        let r = v as int % (16 * m);
        vstd::arithmetic::div_mod::lemma_mod_breakdown(v as int, 16, m);
        // r == 16 * ((v / 16) % m) + v % 16
        let q = (v as int / 16) % m;
        assert(r == 16 * q + v as int % 16);
        vstd::arithmetic::div_mod::lemma_mod_bound(v as int / 16, m);
        assert(r / 16 == q);
        assert(r % 16 == v as int % 16);
    }
}

pub open spec fn rsa_modulus() -> nat {
    bigint::be_value(bigint::hex_bytes(vstd::utf8::encode_utf8(RSA_MODULUS_HEX@)))
}

/// The secret's bytes reversed, as a number, to the public exponent modulo the
/// public modulus, in 256 hexadecimal digits.
pub open spec fn rsa_text(secret: Seq<char>) -> Seq<char> {
    let m = bigint::be_value(vstd::utf8::encode_utf8(secret).reverse());
    text::hex_text(bigint::mod_power(m, RSA_EXP as nat, rsa_modulus()), 256, false)
}

fn rsa_encrypt_secret(secret: &str) -> (r: String)
    requires
        vstd::utf8::encode_utf8(secret@).len() <= 128,
    ensures
        r@ == rsa_text(secret@),
{
    let raw = secret.as_bytes();
    let mut msg: Vec<u8> = Vec::new();
    let mut k: usize = raw.len();
    while k > 0
        invariant
            k <= raw@.len(),
            msg@ =~= raw@.reverse().take(raw@.len() - k),
        decreases k,
    {
        msg.push(raw[k - 1]);
        k -= 1;
    }
    assert(msg@ =~= raw@.reverse());
    let n = Uint::from_be_hex(RSA_MODULUS_HEX);
    proof {
        reveal_strlit(
            "e0b509f6259df8642dbc35662901477df22677ec152b5ff68ace615bb7b725152b3ab17a876aea8a5aa76d2e417629ec4ee341f56135fccf695280104e0312ecbda92557c93870114af6c9d05c4f7f0c3685b7a46bee255932575cce10b424d813cfe4875d3e82047b97ddef52741d546b8e289dc6935b3ece0462db0a22b8e7",
        );
        lemma_utf8_len(RSA_MODULUS_HEX@);
    }
    let m = Uint::from_be(msg.as_slice());
    let c = m.modpow(RSA_EXP, &n);
    let bytes = c.to_be_fixed(128);
    proof {
        law_hex_of_number(bytes@);
        vstd::arithmetic::power::lemma_pow_multiplies(16, 2, 128);
        vstd::arithmetic::power::lemma_square_is_pow2(16);
        lemma_hex_text_mod(c.value(), 256);
    }
    hex(bytes.as_slice())
}

// --------------------------------------------------------------------- weapi

pub open spec fn weapi_params(plain: Seq<char>, secret: Seq<char>) -> Seq<char> {
    let iv = vstd::utf8::encode_utf8(IV@);
    let first = cbc(vstd::utf8::encode_utf8(PRESET_KEY@), iv, vstd::utf8::encode_utf8(plain));
    let again = vstd::utf8::encode_utf8(base64_text(first));
    base64_text(cbc(vstd::utf8::encode_utf8(secret), iv, again))
}

impl Payload {
    /// The payload of a `weapi` call with this plain text and secret.
    pub open spec fn is_weapi(self, plain: Seq<char>, secret: Seq<char>) -> bool {
        &&& self.params@ == weapi_params(plain, secret)
        &&& self.enc_sec_key matches Some(k) && k@ == rsa_text(secret)
    }
}

/// `weapi` under a given secret.
pub fn encrypt_weapi_json(json: &str, secret: &str) -> (r: Result<Payload, &'static str>)
    ensures
        match r {
            Ok(p) => usable_secret(secret@) && p.is_weapi(json@, secret@),
            Err(e) => !usable_secret(secret@) && e@ == "weapi secret must be 16 ascii chars"@,
        },
{
    if !is_usable_secret(secret) {
        return Err("weapi secret must be 16 ascii chars");
    }
    proof {
        lemma_utf8_len(secret@);
    }
    let iv = IV.as_bytes();
    let first = aes_128_cbc_encrypt(PRESET_KEY.as_bytes(), iv, json.as_bytes());
    let first_b64 = base64(first.as_slice());
    let second = aes_128_cbc_encrypt(secret.as_bytes(), iv, first_b64.as_str().as_bytes());
    Ok(Payload { params: base64(second.as_slice()), enc_sec_key: Some(rsa_encrypt_secret(secret)) })
}

/// `weapi` of the given parameters, as an object in their order, under a fresh
/// secret.
pub fn encrypt_weapi(params: &[(String, String)], state: &mut u64, tick: u64) -> (r: Result<
    Payload,
    &'static str,
>)
    ensures
        *final(state) == stirred(*old(state), tick),
        r matches Ok(p) && p.is_weapi(
            object_text(pair_texts(params@)),
            secret_of(*final(state)),
        ),
{
    let json = json_object(params);
    let secret = random_secret(state, tick);
    proof {
        law_drawn_secret_is_usable(*state);
    }
    encrypt_weapi_json(json.as_str(), secret.as_str())
}

/// `eapi` calls are not offered.
pub fn encrypt_eapi(_params: &[(String, String)]) -> (r: Result<Payload, &'static str>)
    ensures
        r matches Err(e) && e@ == "eapi encryption not available yet"@,
{
    Err("eapi encryption not available yet")
}

} // verus!
