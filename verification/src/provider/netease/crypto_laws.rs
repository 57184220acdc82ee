//! What a request's fields carry: each layer can be taken off again.

use vstd::prelude::*;
use vstd::arithmetic::power;
use crate::json;
use crate::provider::netease::aes;
use crate::provider::netease::bigint;
use crate::provider::netease::crypto;
use crate::text;
use crate::text_laws;

verus! {

// -------------------------------------------------------------------- Base64

/// The alphabet of Base64.
pub proof fn law_base64_alphabet(v: nat)
    requires
        v < 64,
    ensures
        crypto::sextet_char(v)
            == "ABCDEFGHIJKLMNOPQRSTUVWXYZabcdefghijklmnopqrstuvwxyz0123456789+/"@[v as int],
{
    reveal_strlit("ABCDEFGHIJKLMNOPQRSTUVWXYZabcdefghijklmnopqrstuvwxyz0123456789+/");
}

/// Every three bytes are four characters; what is left is padded to four.
pub proof fn law_base64_length(data: Seq<u8>)
    ensures
        crypto::base64_text(data).len() == (data.len() + 2) / 3 * 4,
    decreases data.len(),
{
    if data.len() > 2 {
        law_base64_length(data.skip(3));
        assert((data.len() + 2) / 3 == (data.skip(3).len() + 2) / 3 + 1);
    }
}

// ---------------------------------------------------------------------- form

/// What a reader of a form makes of a field: a percent sign and two hexadecimal
/// digits are a byte, any other character is its own.
pub open spec fn form_bytes(s: Seq<char>) -> Seq<u8>
    decreases s.len(),
{
    if s.len() == 0 {
        Seq::empty()
    } else if s[0] == '%' && s.len() >= 3 {
        seq![(json::hex_value(s[1]) * 16 + json::hex_value(s[2])) as u8] + form_bytes(s.skip(3))
    } else {
        seq![s[0] as u8] + form_bytes(s.skip(1))
    }
}

/// The characters that have no meaning of their own in a form.
pub open spec fn is_unreserved(c: char) -> bool {
    'a' <= c <= 'z' || 'A' <= c <= 'Z' || '0' <= c <= '9' || c == '-' || c == '_' || c == '.' || c
        == '~'
}

proof fn lemma_form_byte(b: u8, rest: Seq<char>)
    ensures
        form_bytes(crypto::form_byte(b) + rest) == seq![b] + form_bytes(rest),
        forall|i: int|
            0 <= i < crypto::form_byte(b).len() ==> is_unreserved(#[trigger] crypto::form_byte(b)[i])
                || crypto::form_byte(b)[i] == '%',
{
    let e = crypto::form_byte(b);
    let s = e + rest;
    if crypto::form_plain(b) {
        assert(s[0] == b as char);
        assert(s.skip(1) =~= rest);
    } else {
        let n = b as nat;
        reveal_with_fuel(text::hex_text, 3);
        let h = text::hex_text(n, 2, true);
        assert(h.len() == 2);
        assert(h[1] == text::hex_digit(n % 16, true));
        assert(h[0] == text::hex_digit(n / 16 % 16, true));
        assert(s[0] == '%' && s[1] == h[0] && s[2] == h[1]);
        assert(json::hex_value(h[0]) == n / 16);
        assert(json::hex_value(h[1]) == n % 16);
        assert(s.skip(3) =~= rest);
        assert(e[1] == h[0] && e[2] == h[1]);
    }
}

proof fn lemma_form_concat(a: Seq<u8>, b: Seq<u8>)
    ensures
        crypto::form_text(a + b) == crypto::form_text(a) + crypto::form_text(b),
    decreases b.len(),
{
    if b.len() == 0 {
        assert(a + b =~= a);
        assert(crypto::form_text(a) + Seq::<char>::empty() =~= crypto::form_text(a));
    } else {
        lemma_form_concat(a, b.drop_last());
        assert((a + b).drop_last() =~= a + b.drop_last());
        assert(crypto::form_text(a + b) =~= crypto::form_text(a) + crypto::form_text(b));
    }
}

/// A field that was written is read back, and nothing in it is taken for the
/// form's own signs.
pub proof fn law_form_field_reads_back(data: Seq<u8>)
    ensures
        form_bytes(crypto::form_text(data)) == data,
        forall|i: int|
            0 <= i < crypto::form_text(data).len() ==> is_unreserved(
                #[trigger] crypto::form_text(data)[i],
            ) || crypto::form_text(data)[i] == '%',
    decreases data.len(),
{
    if data.len() > 0 {
        let first = seq![data[0]];
        let rest = data.skip(1);
        assert(data =~= first + rest);
        lemma_form_concat(first, rest);
        assert(first.drop_last() =~= Seq::<u8>::empty());
        assert(crypto::form_text(first) =~= crypto::form_byte(data[0])) by {
            assert(crypto::form_text(first.drop_last()) == Seq::<char>::empty());
        }
        lemma_form_byte(data[0], crypto::form_text(rest));
        law_form_field_reads_back(rest);
        let a = crypto::form_byte(data[0]);
        let b = crypto::form_text(rest);
        assert forall|i: int| 0 <= i < crypto::form_text(data).len() implies is_unreserved(
            #[trigger] crypto::form_text(data)[i],
        ) || crypto::form_text(data)[i] == '%' by {
            if i < a.len() {
                assert(crypto::form_text(data)[i] == a[i]);
            } else {
                assert(crypto::form_text(data)[i] == b[i - a.len()]);
            }
        }
    }
}

// -------------------------------------------------------------------- blocks

/// Padding goes up to the next block and says how long it is.
pub proof fn law_padding_says_its_length(data: Seq<u8>)
    ensures
        ({
            let p = crypto::padded(data);
            let n = p.last() as int;
            &&& p.len() % 16 == 0
            &&& 1 <= n <= 16
            &&& p.take(p.len() - n) == data
            &&& forall|i: int| p.len() - n <= i < p.len() ==> #[trigger] p[i] == n
        }),
{
    let p = crypto::padded(data);
    let n = 16 - data.len() as int % 16;
    assert(p.len() == data.len() + n);
    assert(p.take(p.len() - n) =~= data);
}

/// Block `k` of a ciphertext is the cipher of block `k` of the padded text with
/// the block of ciphertext before it, or with the vector, laid over it.
pub proof fn law_blocks_are_chained(key: Seq<u8>, iv: Seq<u8>, data: Seq<u8>, k: int)
    requires
        key.len() == 16,
        iv.len() == 16,
        0 <= k,
        16 * k + 16 <= crypto::cbc(key, iv, data).len(),
    ensures
        ({
            let c = crypto::cbc(key, iv, data);
            let p = crypto::padded(data);
            c.subrange(16 * k, 16 * k + 16) == aes::cipher(
                aes::expanded(key),
                aes::xored(
                    p.subrange(16 * k, 16 * k + 16),
                    if k == 0 {
                        iv
                    } else {
                        c.subrange(16 * k - 16, 16 * k)
                    },
                ),
            )
        }),
{
    crypto::law_cbc_len(key, iv, data);
    lemma_chain(aes::expanded(key), iv, crypto::padded(data), k);
}

proof fn lemma_chain(rk: Seq<u8>, prev: Seq<u8>, data: Seq<u8>, k: int)
    requires
        prev.len() == 16,
        0 <= k,
        16 * k + 16 <= data.len(),
    ensures
        16 * k + 16 <= crypto::chained(rk, prev, data).len(),
        ({
            let c = crypto::chained(rk, prev, data);
            c.subrange(16 * k, 16 * k + 16) == aes::cipher(
                rk,
                aes::xored(
                    data.subrange(16 * k, 16 * k + 16),
                    if k == 0 {
                        prev
                    } else {
                        c.subrange(16 * k - 16, 16 * k)
                    },
                ),
            )
        }),
    decreases k,
{
    let c = crypto::chained(rk, prev, data);
    let block = aes::cipher(rk, aes::xored(data.take(16), prev));
    let rest = crypto::chained(rk, block, data.skip(16));
    assert(c == block + rest);
    assert(block.len() == 16);
    if k == 0 {
        assert(data.subrange(0, 16) =~= data.take(16));
        assert(c.subrange(0, 16) =~= block);
    } else {
        lemma_chain(rk, block, data.skip(16), k - 1);
        assert(c.subrange(16 * k, 16 * k + 16) =~= rest.subrange(16 * k - 16, 16 * k));
        assert(data.skip(16).subrange(16 * k - 16, 16 * k) =~= data.subrange(16 * k, 16 * k + 16));
        if k == 1 {
            assert(c.subrange(0, 16) =~= block);
        } else {
            assert(c.subrange(16 * k - 16, 16 * k) =~= rest.subrange(16 * k - 32, 16 * k - 16));
        }
    }
}

// --------------------------------------------------------------------- weapi

/// A call's text goes through the preset key, then through the secret, each time
/// in Base64.
pub proof fn law_weapi_is_two_layers(plain: Seq<char>, secret: Seq<char>)
    ensures
        crypto::weapi_params(plain, secret) == crypto::base64_text(
            crypto::cbc(
                vstd::utf8::encode_utf8(secret),
                vstd::utf8::encode_utf8("0102030405060708"@),
                vstd::utf8::encode_utf8(
                    crypto::base64_text(
                        crypto::cbc(
                            vstd::utf8::encode_utf8("0CoJUm6Qyw8W8jud"@),
                            vstd::utf8::encode_utf8("0102030405060708"@),
                            vstd::utf8::encode_utf8(plain),
                        ),
                    ),
                ),
            ),
        ),
{
}

/// The secret goes along as its bytes from the last to the first, as one number,
/// to the power of 65537 modulo the server's number, in 256 digits.
pub proof fn law_secret_goes_along(secret: Seq<char>, k: nat)
    requires
        k < 256,
        crypto::rsa_modulus() > 0,
    ensures
        ({
            let bytes = vstd::utf8::encode_utf8(secret);
            let m = bigint::be_value(bytes.reverse()) as int;
            let c = power::pow(m, 65537) % crypto::rsa_modulus() as int;
            &&& crypto::rsa_text(secret).len() == 256
            &&& crypto::rsa_text(secret)[255 - k] == "0123456789abcdef"@[c / power::pow(16, k) % 16]
        }),
{
    let m = bigint::be_value(vstd::utf8::encode_utf8(secret).reverse());
    let c = bigint::mod_power(m, 65537, crypto::rsa_modulus());
    assert(power::pow(m as int, 65537) % crypto::rsa_modulus() as int >= 0);
    text_laws::law_hexadecimal_digits(c, 256, false, k);
}

/// The number of big-endian bytes: each byte counts 256 to the power of its
/// distance from the end.
pub proof fn law_big_endian_number(before: Seq<u8>, b: u8, after: Seq<u8>)
    ensures
        bigint::be_value(before + seq![b] + after) == (bigint::be_value(before) * 256 + b)
            * power::pow(256, after.len()) + bigint::be_value(after),
    decreases after.len(),
{
    let s = before + seq![b] + after;
    if after.len() == 0 {
        assert(s.drop_last() =~= before);
        assert(power::pow(256, 0) == 1) by {
            reveal(power::pow);
        }
        assert(s.last() == b);
        let x = bigint::be_value(before) * 256 + b;
        assert(x * power::pow(256, after.len()) == x) by (nonlinear_arith)
            requires
                power::pow(256, after.len()) == 1,
        ;
    } else {
        law_big_endian_number(before, b, after.drop_last());
        assert(s.drop_last() =~= before + seq![b] + after.drop_last());
        assert(s.last() == after.last());
        let n = after.drop_last().len();
        power::lemma_pow_adds(256, n, 1);
        power::lemma_pow1(256);
        let x = bigint::be_value(before) * 256 + b;
        let p = power::pow(256, n);
        assert(power::pow(256, after.len()) == p * 256);
        assert((x * p) * 256 == x * (p * 256)) by (nonlinear_arith);
    }
}

/// An object of one member, and of one member more.
pub proof fn law_object_lists_its_members(
    pairs: Seq<(Seq<char>, Seq<char>)>,
    key: Seq<char>,
    value: Seq<char>,
)
    ensures
        crypto::object_text(Seq::empty()) == "{}"@,
        crypto::object_text(seq![(key, value)]) == "{\""@ + json::escaped(key, false) + "\":\""@
            + json::escaped(value, false) + "\"}"@,
        pairs.len() > 0 ==> crypto::object_text(pairs.push((key, value))) == crypto::object_text(
            pairs,
        ).drop_last() + ",\""@ + json::escaped(key, false) + "\":\""@ + json::escaped(value, false)
            + "\"}"@,
{
    reveal_strlit("{}");
    reveal_strlit("{\"");
    reveal_strlit("\":\"");
    reveal_strlit("\"}");
    reveal_strlit(",\"");
    assert(crypto::object_text(Seq::empty()) =~= "{}"@);
    let one = seq![(key, value)];
    assert(one.drop_last() =~= Seq::empty());
    assert(crypto::members_text(one.drop_last()) =~= Seq::empty());
    assert(crypto::object_text(one) =~= "{\""@ + json::escaped(key, false) + "\":\""@
        + json::escaped(value, false) + "\"}"@);
    let more = pairs.push((key, value));
    assert(more.drop_last() =~= pairs);
    assert(crypto::object_text(pairs).drop_last() =~= seq!['{'] + crypto::members_text(pairs));
    if pairs.len() > 0 {
        assert(crypto::object_text(more) =~= crypto::object_text(pairs).drop_last() + ",\""@
            + json::escaped(key, false) + "\":\""@ + json::escaped(value, false) + "\"}"@);
    }
}

// -------------------------------------------------------------------- secrets

/// The characters of a secret are the small letters, the capitals and the digits,
/// in that order.
pub proof fn law_secret_alphabet(k: nat)
    requires
        k < 62,
    ensures
        k < 26 ==> crypto::base62_char(k) as int == 'a' as int + k,
        26 <= k < 52 ==> crypto::base62_char(k) as int == 'A' as int + k - 26,
        52 <= k ==> crypto::base62_char(k) as int == '0' as int + k - 52,
{
}

/// Each character of a secret is drawn anew: the number is multiplied and added
/// to, and what is left of it modulo 62 picks the character.
pub proof fn law_secret_is_drawn(x: u64, i: int)
    requires
        0 <= i < 16,
    ensures
        crypto::secret_of(x).len() == 16,
        crypto::drawn(x, 0) == x,
        crypto::drawn(x, (i + 1) as nat) as int == ((crypto::drawn(x, i as nat)
            * 11400714819323198485) % 0x1_0000_0000_0000_0000 + 1779033703)
            % 0x1_0000_0000_0000_0000,
        crypto::secret_of(x)[i] == crypto::base62_char(
            (crypto::drawn(x, (i + 1) as nat) as usize) as nat % 62,
        ),
{
}

/// Stirring never leaves the generator at zero, where it would stay, and brings
/// the reading of the clock in.
pub proof fn law_stirring(state: u64, tick: u64)
    ensures
        crypto::stirred(state, tick) != 0,
        crypto::stirred(0, 0) == 0x9E37_79B9_7F4A_7C15u64,
        ({
            let turned = (tick * 0x2_0000) as u64 | (tick / 0x8000_0000_0000) as u64;
            let a = state ^ turned;
            let b = a ^ (a << 13);
            let c = b ^ (b >> 7);
            let d = c ^ (c << 17);
            d != 0 ==> crypto::stirred(state, tick) == d
        }),
{
    assert((tick << 17) == (tick * 0x2_0000) as u64) by (bit_vector);
    assert((tick >> 47) == tick / 0x8000_0000_0000u64) by (bit_vector);
    assert(0u64 ^ ((0u64 << 17) | (0u64 >> 47)) == 0 && 0u64 ^ (0u64 << 13) == 0 && 0u64 ^ (0u64
        >> 7) == 0 && 0u64 ^ (0u64 << 17) == 0) by (bit_vector);
}

/// Calls of the other kind are not offered.
pub proof fn law_eapi_is_refused(
    params: &[(String, String)],
    r: Result<crypto::Payload, &'static str>,
)
    requires
        call_ensures(crypto::encrypt_eapi, (params,), r),
    ensures
        r is Err,
        r->Err_0@ == "eapi encryption not available yet"@,
{
}

} // verus!
