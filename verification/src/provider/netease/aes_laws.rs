//! What the cipher is made of, over the arithmetic of its field.

use vstd::prelude::*;
use crate::provider::netease::aes;

verus! {

// ------------------------------------------------------------------- the field

/// Twice a number of the field: one bit to the left, and the polynomial taken off
/// where a bit leaves.
pub open spec fn twice(a: u8) -> u8 {
    (a << 1) ^ (if a & 0x80 == 0x80 {
        0x1bu8
    } else {
        0u8
    })
}

/// What one bit of `b` adds to a product.
pub open spec fn part(a: u8, b: u8, bit: u8) -> u8 {
    if b & bit == bit {
        a
    } else {
        0
    }
}

/// The product of two numbers of the field.
pub open spec fn times(a: u8, b: u8) -> u8 {
    part(a, b, 1) ^ part(twice(a), b, 2) ^ part(twice(twice(a)), b, 4) ^ part(
        twice(twice(twice(a))),
        b,
        8,
    ) ^ part(twice(twice(twice(twice(a)))), b, 16) ^ part(
        twice(twice(twice(twice(twice(a))))),
        b,
        32,
    ) ^ part(twice(twice(twice(twice(twice(twice(a)))))), b, 64) ^ part(
        twice(twice(twice(twice(twice(twice(twice(a))))))),
        b,
        128,
    )
}

/// The mixing of bits behind the inverse.
pub open spec fn bits_mixed(b: u8) -> u8 {
    b ^ ((b << 1) | (b >> 7)) ^ ((b << 2) | (b >> 6)) ^ ((b << 3) | (b >> 5)) ^ ((b << 4) | (b
        >> 4)) ^ 0x63
}

/// `y` is the inverse of `x`, where zero counts as its own.
pub open spec fn is_inverse(x: u8, y: u8) -> bool {
    if x == 0 {
        y == 0
    } else {
        times(x, y) == 1
    }
}

spec fn fits(x: u8, y: u8, s: u8) -> bool {
    (if x == 0 {
        y == 0
    } else {
        times(x, y) == 1
    }) && bits_mixed(y) == s
}

/// Every entry of the substitution table is the inverse of its place, with its
/// bits mixed.
pub proof fn law_substitution(x: u8)
    ensures
        exists|y: u8| is_inverse(x, y) && #[trigger] bits_mixed(y) == aes::SBOX@[x as int],
{
    if x < 16 {
        lemma_row_0(x);
    } else if x < 32 {
        lemma_row_1(x);
    } else if x < 48 {
        lemma_row_2(x);
    } else if x < 64 {
        lemma_row_3(x);
    } else if x < 80 {
        lemma_row_4(x);
    } else if x < 96 {
        lemma_row_5(x);
    } else if x < 112 {
        lemma_row_6(x);
    } else if x < 128 {
        lemma_row_7(x);
    } else if x < 144 {
        lemma_row_8(x);
    } else if x < 160 {
        lemma_row_9(x);
    } else if x < 176 {
        lemma_row_10(x);
    } else if x < 192 {
        lemma_row_11(x);
    } else if x < 208 {
        lemma_row_12(x);
    } else if x < 224 {
        lemma_row_13(x);
    } else if x < 240 {
        lemma_row_14(x);
    } else {
        lemma_row_15(x);
    }
}

proof fn lemma_row_0(x: u8)
    requires
        0 <= x <= 15,
    ensures
        exists|y: u8| is_inverse(x, y) && #[trigger] bits_mixed(y) == aes::SBOX@[x as int],
{
    assert(fits(0x00, 0x00, 0x63) && fits(0x01, 0x01, 0x7c)
        && fits(0x02, 0x8d, 0x77) && fits(0x03, 0xf6, 0x7b)
        && fits(0x04, 0xcb, 0xf2) && fits(0x05, 0x52, 0x6b)
        && fits(0x06, 0x7b, 0x6f) && fits(0x07, 0xd1, 0xc5)
        && fits(0x08, 0xe8, 0x30) && fits(0x09, 0x4f, 0x01)
        && fits(0x0a, 0x29, 0x67) && fits(0x0b, 0xc0, 0x2b)
        && fits(0x0c, 0xb0, 0xfe) && fits(0x0d, 0xe1, 0xd7)
        && fits(0x0e, 0xe5, 0xab) && fits(0x0f, 0xc7, 0x76)) by (bit_vector);
    lemma_entry(x, 0x00, 0x00, 0x63);
    lemma_entry(x, 0x01, 0x01, 0x7c);
    lemma_entry(x, 0x02, 0x8d, 0x77);
    lemma_entry(x, 0x03, 0xf6, 0x7b);
    lemma_entry(x, 0x04, 0xcb, 0xf2);
    lemma_entry(x, 0x05, 0x52, 0x6b);
    lemma_entry(x, 0x06, 0x7b, 0x6f);
    lemma_entry(x, 0x07, 0xd1, 0xc5);
    lemma_entry(x, 0x08, 0xe8, 0x30);
    lemma_entry(x, 0x09, 0x4f, 0x01);
    lemma_entry(x, 0x0a, 0x29, 0x67);
    lemma_entry(x, 0x0b, 0xc0, 0x2b);
    lemma_entry(x, 0x0c, 0xb0, 0xfe);
    lemma_entry(x, 0x0d, 0xe1, 0xd7);
    lemma_entry(x, 0x0e, 0xe5, 0xab);
    lemma_entry(x, 0x0f, 0xc7, 0x76);
}

proof fn lemma_row_1(x: u8)
    requires
        16 <= x <= 31,
    ensures
        exists|y: u8| is_inverse(x, y) && #[trigger] bits_mixed(y) == aes::SBOX@[x as int],
{
    assert(fits(0x10, 0x74, 0xca) && fits(0x11, 0xb4, 0x82)
        && fits(0x12, 0xaa, 0xc9) && fits(0x13, 0x4b, 0x7d)
        && fits(0x14, 0x99, 0xfa) && fits(0x15, 0x2b, 0x59)
        && fits(0x16, 0x60, 0x47) && fits(0x17, 0x5f, 0xf0)
        && fits(0x18, 0x58, 0xad) && fits(0x19, 0x3f, 0xd4)
        && fits(0x1a, 0xfd, 0xa2) && fits(0x1b, 0xcc, 0xaf)
        && fits(0x1c, 0xff, 0x9c) && fits(0x1d, 0x40, 0xa4)
        && fits(0x1e, 0xee, 0x72) && fits(0x1f, 0xb2, 0xc0)) by (bit_vector);
    lemma_entry(x, 0x10, 0x74, 0xca);
    lemma_entry(x, 0x11, 0xb4, 0x82);
    lemma_entry(x, 0x12, 0xaa, 0xc9);
    lemma_entry(x, 0x13, 0x4b, 0x7d);
    lemma_entry(x, 0x14, 0x99, 0xfa);
    lemma_entry(x, 0x15, 0x2b, 0x59);
    lemma_entry(x, 0x16, 0x60, 0x47);
    lemma_entry(x, 0x17, 0x5f, 0xf0);
    lemma_entry(x, 0x18, 0x58, 0xad);
    lemma_entry(x, 0x19, 0x3f, 0xd4);
    lemma_entry(x, 0x1a, 0xfd, 0xa2);
    lemma_entry(x, 0x1b, 0xcc, 0xaf);
    lemma_entry(x, 0x1c, 0xff, 0x9c);
    lemma_entry(x, 0x1d, 0x40, 0xa4);
    lemma_entry(x, 0x1e, 0xee, 0x72);
    lemma_entry(x, 0x1f, 0xb2, 0xc0);
}

proof fn lemma_row_2(x: u8)
    requires
        32 <= x <= 47,
    ensures
        exists|y: u8| is_inverse(x, y) && #[trigger] bits_mixed(y) == aes::SBOX@[x as int],
{
    assert(fits(0x20, 0x3a, 0xb7) && fits(0x21, 0x6e, 0xfd)
        && fits(0x22, 0x5a, 0x93) && fits(0x23, 0xf1, 0x26)
        && fits(0x24, 0x55, 0x36) && fits(0x25, 0x4d, 0x3f)
        && fits(0x26, 0xa8, 0xf7) && fits(0x27, 0xc9, 0xcc)
        && fits(0x28, 0xc1, 0x34) && fits(0x29, 0x0a, 0xa5)
        && fits(0x2a, 0x98, 0xe5) && fits(0x2b, 0x15, 0xf1)
        && fits(0x2c, 0x30, 0x71) && fits(0x2d, 0x44, 0xd8)
        && fits(0x2e, 0xa2, 0x31) && fits(0x2f, 0xc2, 0x15)) by (bit_vector);
    lemma_entry(x, 0x20, 0x3a, 0xb7);
    lemma_entry(x, 0x21, 0x6e, 0xfd);
    lemma_entry(x, 0x22, 0x5a, 0x93);
    lemma_entry(x, 0x23, 0xf1, 0x26);
    lemma_entry(x, 0x24, 0x55, 0x36);
    lemma_entry(x, 0x25, 0x4d, 0x3f);
    lemma_entry(x, 0x26, 0xa8, 0xf7);
    lemma_entry(x, 0x27, 0xc9, 0xcc);
    lemma_entry(x, 0x28, 0xc1, 0x34);
    lemma_entry(x, 0x29, 0x0a, 0xa5);
    lemma_entry(x, 0x2a, 0x98, 0xe5);
    lemma_entry(x, 0x2b, 0x15, 0xf1);
    lemma_entry(x, 0x2c, 0x30, 0x71);
    lemma_entry(x, 0x2d, 0x44, 0xd8);
    lemma_entry(x, 0x2e, 0xa2, 0x31);
    lemma_entry(x, 0x2f, 0xc2, 0x15);
}

proof fn lemma_row_3(x: u8)
    requires
        48 <= x <= 63,
    ensures
        exists|y: u8| is_inverse(x, y) && #[trigger] bits_mixed(y) == aes::SBOX@[x as int],
{
    assert(fits(0x30, 0x2c, 0x04) && fits(0x31, 0x45, 0xc7)
        && fits(0x32, 0x92, 0x23) && fits(0x33, 0x6c, 0xc3)
        && fits(0x34, 0xf3, 0x18) && fits(0x35, 0x39, 0x96)
        && fits(0x36, 0x66, 0x05) && fits(0x37, 0x42, 0x9a)
        && fits(0x38, 0xf2, 0x07) && fits(0x39, 0x35, 0x12)
        && fits(0x3a, 0x20, 0x80) && fits(0x3b, 0x6f, 0xe2)
        && fits(0x3c, 0x77, 0xeb) && fits(0x3d, 0xbb, 0x27)
        && fits(0x3e, 0x59, 0xb2) && fits(0x3f, 0x19, 0x75)) by (bit_vector);
    lemma_entry(x, 0x30, 0x2c, 0x04);
    lemma_entry(x, 0x31, 0x45, 0xc7);
    lemma_entry(x, 0x32, 0x92, 0x23);
    lemma_entry(x, 0x33, 0x6c, 0xc3);
    lemma_entry(x, 0x34, 0xf3, 0x18);
    lemma_entry(x, 0x35, 0x39, 0x96);
    lemma_entry(x, 0x36, 0x66, 0x05);
    lemma_entry(x, 0x37, 0x42, 0x9a);
    lemma_entry(x, 0x38, 0xf2, 0x07);
    lemma_entry(x, 0x39, 0x35, 0x12);
    lemma_entry(x, 0x3a, 0x20, 0x80);
    lemma_entry(x, 0x3b, 0x6f, 0xe2);
    lemma_entry(x, 0x3c, 0x77, 0xeb);
    lemma_entry(x, 0x3d, 0xbb, 0x27);
    lemma_entry(x, 0x3e, 0x59, 0xb2);
    lemma_entry(x, 0x3f, 0x19, 0x75);
}

proof fn lemma_row_4(x: u8)
    requires
        64 <= x <= 79,
    ensures
        exists|y: u8| is_inverse(x, y) && #[trigger] bits_mixed(y) == aes::SBOX@[x as int],
{
    assert(fits(0x40, 0x1d, 0x09) && fits(0x41, 0xfe, 0x83)
        && fits(0x42, 0x37, 0x2c) && fits(0x43, 0x67, 0x1a)
        && fits(0x44, 0x2d, 0x1b) && fits(0x45, 0x31, 0x6e)
        && fits(0x46, 0xf5, 0x5a) && fits(0x47, 0x69, 0xa0)
        && fits(0x48, 0xa7, 0x52) && fits(0x49, 0x64, 0x3b)
        && fits(0x4a, 0xab, 0xd6) && fits(0x4b, 0x13, 0xb3)
        && fits(0x4c, 0x54, 0x29) && fits(0x4d, 0x25, 0xe3)
        && fits(0x4e, 0xe9, 0x2f) && fits(0x4f, 0x09, 0x84)) by (bit_vector);
    lemma_entry(x, 0x40, 0x1d, 0x09);
    lemma_entry(x, 0x41, 0xfe, 0x83);
    lemma_entry(x, 0x42, 0x37, 0x2c);
    lemma_entry(x, 0x43, 0x67, 0x1a);
    lemma_entry(x, 0x44, 0x2d, 0x1b);
    lemma_entry(x, 0x45, 0x31, 0x6e);
    lemma_entry(x, 0x46, 0xf5, 0x5a);
    lemma_entry(x, 0x47, 0x69, 0xa0);
    lemma_entry(x, 0x48, 0xa7, 0x52);
    lemma_entry(x, 0x49, 0x64, 0x3b);
    lemma_entry(x, 0x4a, 0xab, 0xd6);
    lemma_entry(x, 0x4b, 0x13, 0xb3);
    lemma_entry(x, 0x4c, 0x54, 0x29);
    lemma_entry(x, 0x4d, 0x25, 0xe3);
    lemma_entry(x, 0x4e, 0xe9, 0x2f);
    lemma_entry(x, 0x4f, 0x09, 0x84);
}

proof fn lemma_row_5(x: u8)
    requires
        80 <= x <= 95,
    ensures
        exists|y: u8| is_inverse(x, y) && #[trigger] bits_mixed(y) == aes::SBOX@[x as int],
{
    assert(fits(0x50, 0xed, 0x53) && fits(0x51, 0x5c, 0xd1)
        && fits(0x52, 0x05, 0x00) && fits(0x53, 0xca, 0xed)
        && fits(0x54, 0x4c, 0x20) && fits(0x55, 0x24, 0xfc)
        && fits(0x56, 0x87, 0xb1) && fits(0x57, 0xbf, 0x5b)
        && fits(0x58, 0x18, 0x6a) && fits(0x59, 0x3e, 0xcb)
        && fits(0x5a, 0x22, 0xbe) && fits(0x5b, 0xf0, 0x39)
        && fits(0x5c, 0x51, 0x4a) && fits(0x5d, 0xec, 0x4c)
        && fits(0x5e, 0x61, 0x58) && fits(0x5f, 0x17, 0xcf)) by (bit_vector);
    lemma_entry(x, 0x50, 0xed, 0x53);
    lemma_entry(x, 0x51, 0x5c, 0xd1);
    lemma_entry(x, 0x52, 0x05, 0x00);
    lemma_entry(x, 0x53, 0xca, 0xed);
    lemma_entry(x, 0x54, 0x4c, 0x20);
    lemma_entry(x, 0x55, 0x24, 0xfc);
    lemma_entry(x, 0x56, 0x87, 0xb1);
    lemma_entry(x, 0x57, 0xbf, 0x5b);
    lemma_entry(x, 0x58, 0x18, 0x6a);
    lemma_entry(x, 0x59, 0x3e, 0xcb);
    lemma_entry(x, 0x5a, 0x22, 0xbe);
    lemma_entry(x, 0x5b, 0xf0, 0x39);
    lemma_entry(x, 0x5c, 0x51, 0x4a);
    lemma_entry(x, 0x5d, 0xec, 0x4c);
    lemma_entry(x, 0x5e, 0x61, 0x58);
    lemma_entry(x, 0x5f, 0x17, 0xcf);
}

proof fn lemma_row_6(x: u8)
    requires
        96 <= x <= 111,
    ensures
        exists|y: u8| is_inverse(x, y) && #[trigger] bits_mixed(y) == aes::SBOX@[x as int],
{
    assert(fits(0x60, 0x16, 0xd0) && fits(0x61, 0x5e, 0xef)
        && fits(0x62, 0xaf, 0xaa) && fits(0x63, 0xd3, 0xfb)
        && fits(0x64, 0x49, 0x43) && fits(0x65, 0xa6, 0x4d)
        && fits(0x66, 0x36, 0x33) && fits(0x67, 0x43, 0x85)
        && fits(0x68, 0xf4, 0x45) && fits(0x69, 0x47, 0xf9)
        && fits(0x6a, 0x91, 0x02) && fits(0x6b, 0xdf, 0x7f)
        && fits(0x6c, 0x33, 0x50) && fits(0x6d, 0x93, 0x3c)
        && fits(0x6e, 0x21, 0x9f) && fits(0x6f, 0x3b, 0xa8)) by (bit_vector);
    lemma_entry(x, 0x60, 0x16, 0xd0);
    lemma_entry(x, 0x61, 0x5e, 0xef);
    lemma_entry(x, 0x62, 0xaf, 0xaa);
    lemma_entry(x, 0x63, 0xd3, 0xfb);
    lemma_entry(x, 0x64, 0x49, 0x43);
    lemma_entry(x, 0x65, 0xa6, 0x4d);
    lemma_entry(x, 0x66, 0x36, 0x33);
    lemma_entry(x, 0x67, 0x43, 0x85);
    lemma_entry(x, 0x68, 0xf4, 0x45);
    lemma_entry(x, 0x69, 0x47, 0xf9);
    lemma_entry(x, 0x6a, 0x91, 0x02);
    lemma_entry(x, 0x6b, 0xdf, 0x7f);
    lemma_entry(x, 0x6c, 0x33, 0x50);
    lemma_entry(x, 0x6d, 0x93, 0x3c);
    lemma_entry(x, 0x6e, 0x21, 0x9f);
    lemma_entry(x, 0x6f, 0x3b, 0xa8);
}

proof fn lemma_row_7(x: u8)
    requires
        112 <= x <= 127,
    ensures
        exists|y: u8| is_inverse(x, y) && #[trigger] bits_mixed(y) == aes::SBOX@[x as int],
{
    assert(fits(0x70, 0x79, 0x51) && fits(0x71, 0xb7, 0xa3)
        && fits(0x72, 0x97, 0x40) && fits(0x73, 0x85, 0x8f)
        && fits(0x74, 0x10, 0x92) && fits(0x75, 0xb5, 0x9d)
        && fits(0x76, 0xba, 0x38) && fits(0x77, 0x3c, 0xf5)
        && fits(0x78, 0xb6, 0xbc) && fits(0x79, 0x70, 0xb6)
        && fits(0x7a, 0xd0, 0xda) && fits(0x7b, 0x06, 0x21)
        && fits(0x7c, 0xa1, 0x10) && fits(0x7d, 0xfa, 0xff)
        && fits(0x7e, 0x81, 0xf3) && fits(0x7f, 0x82, 0xd2)) by (bit_vector);
    lemma_entry(x, 0x70, 0x79, 0x51);
    lemma_entry(x, 0x71, 0xb7, 0xa3);
    lemma_entry(x, 0x72, 0x97, 0x40);
    lemma_entry(x, 0x73, 0x85, 0x8f);
    lemma_entry(x, 0x74, 0x10, 0x92);
    lemma_entry(x, 0x75, 0xb5, 0x9d);
    lemma_entry(x, 0x76, 0xba, 0x38);
    lemma_entry(x, 0x77, 0x3c, 0xf5);
    lemma_entry(x, 0x78, 0xb6, 0xbc);
    lemma_entry(x, 0x79, 0x70, 0xb6);
    lemma_entry(x, 0x7a, 0xd0, 0xda);
    lemma_entry(x, 0x7b, 0x06, 0x21);
    lemma_entry(x, 0x7c, 0xa1, 0x10);
    lemma_entry(x, 0x7d, 0xfa, 0xff);
    lemma_entry(x, 0x7e, 0x81, 0xf3);
    lemma_entry(x, 0x7f, 0x82, 0xd2);
}

proof fn lemma_row_8(x: u8)
    requires
        128 <= x <= 143,
    ensures
        exists|y: u8| is_inverse(x, y) && #[trigger] bits_mixed(y) == aes::SBOX@[x as int],
{
    assert(fits(0x80, 0x83, 0xcd) && fits(0x81, 0x7e, 0x0c)
        && fits(0x82, 0x7f, 0x13) && fits(0x83, 0x80, 0xec)
        && fits(0x84, 0x96, 0x5f) && fits(0x85, 0x73, 0x97)
        && fits(0x86, 0xbe, 0x44) && fits(0x87, 0x56, 0x17)
        && fits(0x88, 0x9b, 0xc4) && fits(0x89, 0x9e, 0xa7)
        && fits(0x8a, 0x95, 0x7e) && fits(0x8b, 0xd9, 0x3d)
        && fits(0x8c, 0xf7, 0x64) && fits(0x8d, 0x02, 0x5d)
        && fits(0x8e, 0xb9, 0x19) && fits(0x8f, 0xa4, 0x73)) by (bit_vector);
    lemma_entry(x, 0x80, 0x83, 0xcd);
    lemma_entry(x, 0x81, 0x7e, 0x0c);
    lemma_entry(x, 0x82, 0x7f, 0x13);
    lemma_entry(x, 0x83, 0x80, 0xec);
    lemma_entry(x, 0x84, 0x96, 0x5f);
    lemma_entry(x, 0x85, 0x73, 0x97);
    lemma_entry(x, 0x86, 0xbe, 0x44);
    lemma_entry(x, 0x87, 0x56, 0x17);
    lemma_entry(x, 0x88, 0x9b, 0xc4);
    lemma_entry(x, 0x89, 0x9e, 0xa7);
    lemma_entry(x, 0x8a, 0x95, 0x7e);
    lemma_entry(x, 0x8b, 0xd9, 0x3d);
    lemma_entry(x, 0x8c, 0xf7, 0x64);
    lemma_entry(x, 0x8d, 0x02, 0x5d);
    lemma_entry(x, 0x8e, 0xb9, 0x19);
    lemma_entry(x, 0x8f, 0xa4, 0x73);
}

proof fn lemma_row_9(x: u8)
    requires
        144 <= x <= 159,
    ensures
        exists|y: u8| is_inverse(x, y) && #[trigger] bits_mixed(y) == aes::SBOX@[x as int],
{
    assert(fits(0x90, 0xde, 0x60) && fits(0x91, 0x6a, 0x81)
        && fits(0x92, 0x32, 0x4f) && fits(0x93, 0x6d, 0xdc)
        && fits(0x94, 0xd8, 0x22) && fits(0x95, 0x8a, 0x2a)
        && fits(0x96, 0x84, 0x90) && fits(0x97, 0x72, 0x88)
        && fits(0x98, 0x2a, 0x46) && fits(0x99, 0x14, 0xee)
        && fits(0x9a, 0x9f, 0xb8) && fits(0x9b, 0x88, 0x14)
        && fits(0x9c, 0xf9, 0xde) && fits(0x9d, 0xdc, 0x5e)
        && fits(0x9e, 0x89, 0x0b) && fits(0x9f, 0x9a, 0xdb)) by (bit_vector);
    lemma_entry(x, 0x90, 0xde, 0x60);
    lemma_entry(x, 0x91, 0x6a, 0x81);
    lemma_entry(x, 0x92, 0x32, 0x4f);
    lemma_entry(x, 0x93, 0x6d, 0xdc);
    lemma_entry(x, 0x94, 0xd8, 0x22);
    lemma_entry(x, 0x95, 0x8a, 0x2a);
    lemma_entry(x, 0x96, 0x84, 0x90);
    lemma_entry(x, 0x97, 0x72, 0x88);
    lemma_entry(x, 0x98, 0x2a, 0x46);
    lemma_entry(x, 0x99, 0x14, 0xee);
    lemma_entry(x, 0x9a, 0x9f, 0xb8);
    lemma_entry(x, 0x9b, 0x88, 0x14);
    lemma_entry(x, 0x9c, 0xf9, 0xde);
    lemma_entry(x, 0x9d, 0xdc, 0x5e);
    lemma_entry(x, 0x9e, 0x89, 0x0b);
    lemma_entry(x, 0x9f, 0x9a, 0xdb);
}

proof fn lemma_row_10(x: u8)
    requires
        160 <= x <= 175,
    ensures
        exists|y: u8| is_inverse(x, y) && #[trigger] bits_mixed(y) == aes::SBOX@[x as int],
{
    assert(fits(0xa0, 0xfb, 0xe0) && fits(0xa1, 0x7c, 0x32)
        && fits(0xa2, 0x2e, 0x3a) && fits(0xa3, 0xc3, 0x0a)
        && fits(0xa4, 0x8f, 0x49) && fits(0xa5, 0xb8, 0x06)
        && fits(0xa6, 0x65, 0x24) && fits(0xa7, 0x48, 0x5c)
        && fits(0xa8, 0x26, 0xc2) && fits(0xa9, 0xc8, 0xd3)
        && fits(0xaa, 0x12, 0xac) && fits(0xab, 0x4a, 0x62)
        && fits(0xac, 0xce, 0x91) && fits(0xad, 0xe7, 0x95)
        && fits(0xae, 0xd2, 0xe4) && fits(0xaf, 0x62, 0x79)) by (bit_vector);
    lemma_entry(x, 0xa0, 0xfb, 0xe0);
    lemma_entry(x, 0xa1, 0x7c, 0x32);
    lemma_entry(x, 0xa2, 0x2e, 0x3a);
    lemma_entry(x, 0xa3, 0xc3, 0x0a);
    lemma_entry(x, 0xa4, 0x8f, 0x49);
    lemma_entry(x, 0xa5, 0xb8, 0x06);
    lemma_entry(x, 0xa6, 0x65, 0x24);
    lemma_entry(x, 0xa7, 0x48, 0x5c);
    lemma_entry(x, 0xa8, 0x26, 0xc2);
    lemma_entry(x, 0xa9, 0xc8, 0xd3);
    lemma_entry(x, 0xaa, 0x12, 0xac);
    lemma_entry(x, 0xab, 0x4a, 0x62);
    lemma_entry(x, 0xac, 0xce, 0x91);
    lemma_entry(x, 0xad, 0xe7, 0x95);
    lemma_entry(x, 0xae, 0xd2, 0xe4);
    lemma_entry(x, 0xaf, 0x62, 0x79);
}

proof fn lemma_row_11(x: u8)
    requires
        176 <= x <= 191,
    ensures
        exists|y: u8| is_inverse(x, y) && #[trigger] bits_mixed(y) == aes::SBOX@[x as int],
{
    assert(fits(0xb0, 0x0c, 0xe7) && fits(0xb1, 0xe0, 0xc8)
        && fits(0xb2, 0x1f, 0x37) && fits(0xb3, 0xef, 0x6d)
        && fits(0xb4, 0x11, 0x8d) && fits(0xb5, 0x75, 0xd5)
        && fits(0xb6, 0x78, 0x4e) && fits(0xb7, 0x71, 0xa9)
        && fits(0xb8, 0xa5, 0x6c) && fits(0xb9, 0x8e, 0x56)
        && fits(0xba, 0x76, 0xf4) && fits(0xbb, 0x3d, 0xea)
        && fits(0xbc, 0xbd, 0x65) && fits(0xbd, 0xbc, 0x7a)
        && fits(0xbe, 0x86, 0xae) && fits(0xbf, 0x57, 0x08)) by (bit_vector);
    lemma_entry(x, 0xb0, 0x0c, 0xe7);
    lemma_entry(x, 0xb1, 0xe0, 0xc8);
    lemma_entry(x, 0xb2, 0x1f, 0x37);
    lemma_entry(x, 0xb3, 0xef, 0x6d);
    lemma_entry(x, 0xb4, 0x11, 0x8d);
    lemma_entry(x, 0xb5, 0x75, 0xd5);
    lemma_entry(x, 0xb6, 0x78, 0x4e);
    lemma_entry(x, 0xb7, 0x71, 0xa9);
    lemma_entry(x, 0xb8, 0xa5, 0x6c);
    lemma_entry(x, 0xb9, 0x8e, 0x56);
    lemma_entry(x, 0xba, 0x76, 0xf4);
    lemma_entry(x, 0xbb, 0x3d, 0xea);
    lemma_entry(x, 0xbc, 0xbd, 0x65);
    lemma_entry(x, 0xbd, 0xbc, 0x7a);
    lemma_entry(x, 0xbe, 0x86, 0xae);
    lemma_entry(x, 0xbf, 0x57, 0x08);
}

proof fn lemma_row_12(x: u8)
    requires
        192 <= x <= 207,
    ensures
        exists|y: u8| is_inverse(x, y) && #[trigger] bits_mixed(y) == aes::SBOX@[x as int],
{
    assert(fits(0xc0, 0x0b, 0xba) && fits(0xc1, 0x28, 0x78)
        && fits(0xc2, 0x2f, 0x25) && fits(0xc3, 0xa3, 0x2e)
        && fits(0xc4, 0xda, 0x1c) && fits(0xc5, 0xd4, 0xa6)
        && fits(0xc6, 0xe4, 0xb4) && fits(0xc7, 0x0f, 0xc6)
        && fits(0xc8, 0xa9, 0xe8) && fits(0xc9, 0x27, 0xdd)
        && fits(0xca, 0x53, 0x74) && fits(0xcb, 0x04, 0x1f)
        && fits(0xcc, 0x1b, 0x4b) && fits(0xcd, 0xfc, 0xbd)
        && fits(0xce, 0xac, 0x8b) && fits(0xcf, 0xe6, 0x8a)) by (bit_vector);
    lemma_entry(x, 0xc0, 0x0b, 0xba);
    lemma_entry(x, 0xc1, 0x28, 0x78);
    lemma_entry(x, 0xc2, 0x2f, 0x25);
    lemma_entry(x, 0xc3, 0xa3, 0x2e);
    lemma_entry(x, 0xc4, 0xda, 0x1c);
    lemma_entry(x, 0xc5, 0xd4, 0xa6);
    lemma_entry(x, 0xc6, 0xe4, 0xb4);
    lemma_entry(x, 0xc7, 0x0f, 0xc6);
    lemma_entry(x, 0xc8, 0xa9, 0xe8);
    lemma_entry(x, 0xc9, 0x27, 0xdd);
    lemma_entry(x, 0xca, 0x53, 0x74);
    lemma_entry(x, 0xcb, 0x04, 0x1f);
    lemma_entry(x, 0xcc, 0x1b, 0x4b);
    lemma_entry(x, 0xcd, 0xfc, 0xbd);
    lemma_entry(x, 0xce, 0xac, 0x8b);
    lemma_entry(x, 0xcf, 0xe6, 0x8a);
}

proof fn lemma_row_13(x: u8)
    requires
        208 <= x <= 223,
    ensures
        exists|y: u8| is_inverse(x, y) && #[trigger] bits_mixed(y) == aes::SBOX@[x as int],
{
    assert(fits(0xd0, 0x7a, 0x70) && fits(0xd1, 0x07, 0x3e)
        && fits(0xd2, 0xae, 0xb5) && fits(0xd3, 0x63, 0x66)
        && fits(0xd4, 0xc5, 0x48) && fits(0xd5, 0xdb, 0x03)
        && fits(0xd6, 0xe2, 0xf6) && fits(0xd7, 0xea, 0x0e)
        && fits(0xd8, 0x94, 0x61) && fits(0xd9, 0x8b, 0x35)
        && fits(0xda, 0xc4, 0x57) && fits(0xdb, 0xd5, 0xb9)
        && fits(0xdc, 0x9d, 0x86) && fits(0xdd, 0xf8, 0xc1)
        && fits(0xde, 0x90, 0x1d) && fits(0xdf, 0x6b, 0x9e)) by (bit_vector);
    lemma_entry(x, 0xd0, 0x7a, 0x70);
    lemma_entry(x, 0xd1, 0x07, 0x3e);
    lemma_entry(x, 0xd2, 0xae, 0xb5);
    lemma_entry(x, 0xd3, 0x63, 0x66);
    lemma_entry(x, 0xd4, 0xc5, 0x48);
    lemma_entry(x, 0xd5, 0xdb, 0x03);
    lemma_entry(x, 0xd6, 0xe2, 0xf6);
    lemma_entry(x, 0xd7, 0xea, 0x0e);
    lemma_entry(x, 0xd8, 0x94, 0x61);
    lemma_entry(x, 0xd9, 0x8b, 0x35);
    lemma_entry(x, 0xda, 0xc4, 0x57);
    lemma_entry(x, 0xdb, 0xd5, 0xb9);
    lemma_entry(x, 0xdc, 0x9d, 0x86);
    lemma_entry(x, 0xdd, 0xf8, 0xc1);
    lemma_entry(x, 0xde, 0x90, 0x1d);
    lemma_entry(x, 0xdf, 0x6b, 0x9e);
}

proof fn lemma_row_14(x: u8)
    requires
        224 <= x <= 239,
    ensures
        exists|y: u8| is_inverse(x, y) && #[trigger] bits_mixed(y) == aes::SBOX@[x as int],
{
    assert(fits(0xe0, 0xb1, 0xe1) && fits(0xe1, 0x0d, 0xf8)
        && fits(0xe2, 0xd6, 0x98) && fits(0xe3, 0xeb, 0x11)
        && fits(0xe4, 0xc6, 0x69) && fits(0xe5, 0x0e, 0xd9)
        && fits(0xe6, 0xcf, 0x8e) && fits(0xe7, 0xad, 0x94)
        && fits(0xe8, 0x08, 0x9b) && fits(0xe9, 0x4e, 0x1e)
        && fits(0xea, 0xd7, 0x87) && fits(0xeb, 0xe3, 0xe9)
        && fits(0xec, 0x5d, 0xce) && fits(0xed, 0x50, 0x55)
        && fits(0xee, 0x1e, 0x28) && fits(0xef, 0xb3, 0xdf)) by (bit_vector);
    lemma_entry(x, 0xe0, 0xb1, 0xe1);
    lemma_entry(x, 0xe1, 0x0d, 0xf8);
    lemma_entry(x, 0xe2, 0xd6, 0x98);
    lemma_entry(x, 0xe3, 0xeb, 0x11);
    lemma_entry(x, 0xe4, 0xc6, 0x69);
    lemma_entry(x, 0xe5, 0x0e, 0xd9);
    lemma_entry(x, 0xe6, 0xcf, 0x8e);
    lemma_entry(x, 0xe7, 0xad, 0x94);
    lemma_entry(x, 0xe8, 0x08, 0x9b);
    lemma_entry(x, 0xe9, 0x4e, 0x1e);
    lemma_entry(x, 0xea, 0xd7, 0x87);
    lemma_entry(x, 0xeb, 0xe3, 0xe9);
    lemma_entry(x, 0xec, 0x5d, 0xce);
    lemma_entry(x, 0xed, 0x50, 0x55);
    lemma_entry(x, 0xee, 0x1e, 0x28);
    lemma_entry(x, 0xef, 0xb3, 0xdf);
}

proof fn lemma_row_15(x: u8)
    requires
        240 <= x <= 255,
    ensures
        exists|y: u8| is_inverse(x, y) && #[trigger] bits_mixed(y) == aes::SBOX@[x as int],
{
    assert(fits(0xf0, 0x5b, 0x8c) && fits(0xf1, 0x23, 0xa1)
        && fits(0xf2, 0x38, 0x89) && fits(0xf3, 0x34, 0x0d)
        && fits(0xf4, 0x68, 0xbf) && fits(0xf5, 0x46, 0xe6)
        && fits(0xf6, 0x03, 0x42) && fits(0xf7, 0x8c, 0x68)
        && fits(0xf8, 0xdd, 0x41) && fits(0xf9, 0x9c, 0x99)
        && fits(0xfa, 0x7d, 0x2d) && fits(0xfb, 0xa0, 0x0f)
        && fits(0xfc, 0xcd, 0xb0) && fits(0xfd, 0x1a, 0x54)
        && fits(0xfe, 0x41, 0xbb) && fits(0xff, 0x1c, 0x16)) by (bit_vector);
    lemma_entry(x, 0xf0, 0x5b, 0x8c);
    lemma_entry(x, 0xf1, 0x23, 0xa1);
    lemma_entry(x, 0xf2, 0x38, 0x89);
    lemma_entry(x, 0xf3, 0x34, 0x0d);
    lemma_entry(x, 0xf4, 0x68, 0xbf);
    lemma_entry(x, 0xf5, 0x46, 0xe6);
    lemma_entry(x, 0xf6, 0x03, 0x42);
    lemma_entry(x, 0xf7, 0x8c, 0x68);
    lemma_entry(x, 0xf8, 0xdd, 0x41);
    lemma_entry(x, 0xf9, 0x9c, 0x99);
    lemma_entry(x, 0xfa, 0x7d, 0x2d);
    lemma_entry(x, 0xfb, 0xa0, 0x0f);
    lemma_entry(x, 0xfc, 0xcd, 0xb0);
    lemma_entry(x, 0xfd, 0x1a, 0x54);
    lemma_entry(x, 0xfe, 0x41, 0xbb);
    lemma_entry(x, 0xff, 0x1c, 0x16);
}

proof fn lemma_entry(x: u8, at: u8, y: u8, s: u8)
    requires
        fits(at, y, s),
        aes::SBOX@[at as int] == s,
    ensures
        x == at ==> exists|y: u8|
            is_inverse(x, y) && #[trigger] bits_mixed(y) == aes::SBOX@[x as int],
{
    if x == at {
        assert(is_inverse(x, y) && bits_mixed(y) == aes::SBOX@[x as int]);
    }
}

/// Doubling is doubling in the field, whichever way it is written.
pub proof fn law_doubling(a: u8)
    ensures
        aes::doubled(a) == twice(a),
{
    assert(a >= 128 ==> (a << 1) == a * 2 - 256 && a & 0x80 == 0x80) by (bit_vector);
    assert(a < 128 ==> (a << 1) == a * 2 && a & 0x80 != 0x80) by (bit_vector);
    assert((a << 1) ^ 0u8 == (a << 1)) by (bit_vector);
}

// -------------------------------------------------------------------- the rounds

/// Row `r` of the state moves left by `r` columns.
pub proof fn law_rows_move(b: Seq<u8>, r: int, c: int)
    requires
        0 <= r < 4,
        0 <= c < 4,
    ensures
        aes::rows_shifted(b)[4 * c + r] == b[4 * ((c + r) % 4) + r],
{
    assert((4 * c + r) % 4 == r);
    assert((4 * c + r + 4 * r) % 16 == 4 * ((c + r) % 4) + r);
}

/// In each column an entry becomes twice itself, three times the next and once the
/// two others, from the top round to the top.
pub proof fn law_columns_mix(b: Seq<u8>, c: int)
    requires
        0 <= c < 4,
    ensures
        ({
            let s0 = b[4 * c];
            let s1 = b[4 * c + 1];
            let s2 = b[4 * c + 2];
            let s3 = b[4 * c + 3];
            let out = aes::columns_mixed(b);
            &&& out[4 * c] == twice(s0) ^ (twice(s1) ^ s1) ^ s2 ^ s3
            &&& out[4 * c + 1] == twice(s1) ^ (twice(s2) ^ s2) ^ s3 ^ s0
            &&& out[4 * c + 2] == twice(s2) ^ (twice(s3) ^ s3) ^ s0 ^ s1
            &&& out[4 * c + 3] == twice(s3) ^ (twice(s0) ^ s0) ^ s1 ^ s2
        }),
{
    let i = 4 * c;
    law_doubling(b[4 * c]);
    law_doubling(b[4 * c + 1]);
    law_doubling(b[4 * c + 2]);
    law_doubling(b[4 * c + 3]);
    assert(i / 4 == c && (i + 1) / 4 == c && (i + 2) / 4 == c && (i + 3) / 4 == c);
    assert(i % 4 == 0 && (i + 1) % 4 == 1 && (i + 2) % 4 == 2 && (i + 3) % 4 == 3);
}

/// The key schedule begins with the key; each word of four bytes is the one four
/// before it with the last one added, which every fourth time is turned by a byte,
/// substituted, and given the round's power of two.
pub proof fn law_schedule(key: Seq<u8>, w: int, b: int)
    requires
        0 <= w < 44,
        0 <= b < 4,
    ensures
        ({
            let at = |word: int, byte: int| aes::schedule(key, 4 * word + byte);
            &&& w < 4 ==> at(w, b) == key[4 * w + b]
            &&& w >= 4 && w % 4 != 0 ==> at(w, b) == at(w - 4, b) ^ at(w - 1, b)
            &&& w >= 4 && w % 4 == 0 && b == 0 ==> at(w, 0) == at(w - 4, 0) ^ (aes::SBOX@[at(
                w - 1,
                1,
            ) as int] ^ aes::RCON@[w / 4])
            &&& w >= 4 && w % 4 == 0 && 1 <= b ==> at(w, b) == at(w - 4, b) ^ aes::SBOX@[at(
                w - 1,
                (b + 1) % 4,
            ) as int]
        }),
{
    let j = 4 * w + b;
    assert(w % 4 == 0 ==> j % 16 == b && j / 16 == w / 4);
    assert(w % 4 != 0 ==> j % 16 >= 4);
}

/// The round constants are the powers of two in the field.
pub proof fn law_round_constants(i: int)
    requires
        1 <= i < 10,
    ensures
        aes::RCON@[1] == 1,
        aes::RCON@[i + 1] == aes::doubled(aes::RCON@[i]),
{
    assert((0x80 * 2 - 256) as u8 == 0u8);
    assert(0u8 ^ 0x1bu8 == 0x1bu8) by (bit_vector);
}

} // verus!
