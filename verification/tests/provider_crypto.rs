use yunyin::provider::netease::aes;
use yunyin::provider::netease::bigint::Uint;
use yunyin::provider::netease::crypto;
use yunyin::provider::netease::reed_solomon;

fn unhex(s: &str) -> Vec<u8> {
    (0..s.len() / 2).map(|i| u8::from_str_radix(&s[2 * i..2 * i + 2], 16).unwrap()).collect()
}

#[test]
fn base64_follows_the_alphabet_and_pads() {
    assert_eq!(crypto::base64(b""), "");
    assert_eq!(crypto::base64(b"f"), "Zg==");
    assert_eq!(crypto::base64(b"fo"), "Zm8=");
    assert_eq!(crypto::base64(b"foo"), "Zm9v");
    assert_eq!(crypto::base64(b"foobar"), "Zm9vYmFy");
    assert_eq!(crypto::base64(&[0xff, 0xef, 0xbe]), "/+++");
}

#[test]
fn hex_is_lower_case() {
    assert_eq!(crypto::hex(&[0x00, 0x0f, 0xa5, 0xff]), "000fa5ff");
}

#[test]
fn form_escape_keeps_unreserved_only() {
    assert_eq!(crypto::form_escape("Az09-_.~"), "Az09-_.~");
    assert_eq!(crypto::form_escape("a+b/c="), "a%2Bb%2Fc%3D");
    assert_eq!(crypto::form_escape("云 "), "%E4%BA%91%20");
}

#[test]
fn aes_block_matches_the_standard() {
    let key: Vec<u8> = (0..16).collect();
    let rk = aes::expand_key(&key);
    let mut block = [0u8; 16];
    block.copy_from_slice(&unhex("00112233445566778899aabbccddeeff"));
    let c = aes::encrypt_block(&block, &rk);
    assert_eq!(crypto::hex(&c), "69c4e0d86a7b0430d8cdb78070b4c55a");
}

#[test]
fn cbc_chains_and_pads_a_whole_block() {
    let key: Vec<u8> = (0..16).collect();
    let out = crypto::aes_128_cbc_encrypt(&key, &[0u8; 16], &unhex("00112233445566778899aabbccddeeff"));
    assert_eq!(
        crypto::hex(&out),
        "69c4e0d86a7b0430d8cdb78070b4c55a9e978e6d16b086570ef794ef97984232"
    );
    assert_eq!(crypto::aes_128_cbc_encrypt(&key[1..], &[0u8; 16], b"x").len(), 0);
    assert_eq!(crypto::aes_128_cbc_encrypt(&key, &[0u8; 15], b"x").len(), 0);
    assert_eq!(crypto::aes_128_cbc_encrypt(&key, &[0u8; 16], b"").len(), 16);
    assert_eq!(crypto::aes_128_cbc_encrypt(&key, &[0u8; 16], &[7u8; 17]).len(), 32);
}

#[test]
fn json_object_keeps_the_order_given() {
    let pairs = vec![
        ("z".to_string(), "1".to_string()),
        ("a\"".to_string(), "x\\y\n".to_string()),
    ];
    assert_eq!(crypto::json_object(&pairs), "{\"z\":\"1\",\"a\\\"\":\"x\\\\y\\u000a\"}");
    assert_eq!(crypto::json_object(&[]), "{}");
}

#[test]
fn weapi_matches_known_ciphertext() {
    let p = crypto::encrypt_weapi_json("{\"csrf_token\":\"\"}", "abcdefghijklmnop").unwrap();
    assert_eq!(p.params, "Xq7VamFhKH1OmZhJfUWqviI00tbweILz08QglvBsyBzamphgzo8DM5n5/oKf79/r");
    assert_eq!(
        p.enc_sec_key.unwrap(),
        "d15a1683c992095d0c234c19966605c5c5964911268bbeda8cb8d08d834913e59d53b32358903a121b5fca784c1f5ae44951fd02524df58ecc98e52cc7cf8689b42c2e93ddf05b0592512d87f5960467e2f086c018849d76014d323500e30f13ef4cafbb0cf5a66731a3f1776c75ca35d0062dac70a3e33245afabcf47938487"
    );
}

#[test]
fn weapi_refuses_other_secrets() {
    let why = "weapi secret must be 16 ascii chars";
    assert_eq!(crypto::encrypt_weapi_json("{}", "short").unwrap_err(), why);
    assert_eq!(crypto::encrypt_weapi_json("{}", "abcdefghijklmno云").unwrap_err(), why);
    assert_eq!(crypto::encrypt_weapi_json("{}", "").unwrap_err(), why);
}

#[test]
fn secrets_are_drawn_from_clock_and_state() {
    let mut state = crypto::SECRET_SEED;
    assert_eq!(crypto::random_secret(&mut state, 12345), "pqFMrqL2NKTYh8BI");
    assert_eq!(state, 0x9e86f3ca145044d4);
    let again = crypto::random_secret(&mut state, 12345);
    assert_ne!(again, "pqFMrqL2NKTYh8BI");
    assert!(again.len() == 16 && again.bytes().all(|b| b.is_ascii_alphanumeric()));
}

#[test]
fn weapi_of_parameters_uses_the_drawn_secret() {
    let pairs = vec![
        ("ids".to_string(), "[347230]".to_string()),
        ("level".to_string(), "exhigh".to_string()),
        ("encodeType".to_string(), "mp3".to_string()),
        ("csrf_token".to_string(), "".to_string()),
    ];
    let mut state = crypto::SECRET_SEED;
    let p = crypto::encrypt_weapi(&pairs, &mut state, 12345).unwrap();
    assert_eq!(
        p.params,
        "BWuSOs3aa2KjZMGr2lJFWvPBKj5O+bYlnBapqcg6d9x88DjsylFmnjSDyqXJZVuAc3W1RUMvhFNCJPMnXzN+4U8nSwzcd9sJlURYXxojIXZ+vjrnkKttW0smCal0iLFY21dnRvI5+b3dEGKgE3yoTg=="
    );
    assert!(p.enc_sec_key.unwrap().starts_with("4d1ffbc5ef8303da62b0ec054b481d88"));
}

#[test]
fn eapi_is_not_offered() {
    assert_eq!(crypto::encrypt_eapi(&[]).unwrap_err(), "eapi encryption not available yet");
}

#[test]
fn big_numbers_compute() {
    let a = Uint::from_be(&[0x01, 0x00, 0x00, 0x00, 0x00]);
    let b = Uint::from_u32(0xffff_ffff);
    assert!(b.is_less(&a));
    assert!(!a.is_less(&b));
    assert_eq!(a.sub(&b).to_be_fixed(2), vec![0, 1]);
    assert_eq!(b.add(&Uint::from_u32(1)).to_be_fixed(5), vec![1, 0, 0, 0, 0]);
    assert_eq!(b.mul(&b).to_be_fixed(8), vec![0xff, 0xff, 0xff, 0xfe, 0, 0, 0, 1]);
    assert_eq!(a.bitlen(), 33);
    assert_eq!(Uint::from_u32(5).shl(33).to_be_fixed(5), vec![0x0a, 0, 0, 0, 0]);
    let m = Uint::from_be_hex("03e9");
    assert_eq!(Uint::from_u32(123456789).rem(&m).to_be_fixed(4), vec![0, 0, 0x01, 0xc8]);
    assert_eq!(Uint::from_u32(7).modpow(560, &Uint::from_u32(561)).to_be_fixed(1), vec![1]);
}

#[test]
fn field_arithmetic_and_check_codewords() {
    assert_eq!(reed_solomon::gf_mul(2, 0x80), 0x1d);
    assert_eq!(reed_solomon::gf_mul(0, 77), 0);
    assert_eq!(reed_solomon::gf_pow(2, 8), 0x1d);
    assert_eq!(reed_solomon::gf_pow(9, 0), 1);
    assert_eq!(reed_solomon::rs_generator(7), vec![1, 127, 122, 154, 164, 11, 68, 117]);
    let data = [32, 91, 11, 120, 209, 114, 220, 77, 67, 64, 236, 17, 236, 17, 236, 17];
    assert_eq!(
        reed_solomon::rs(&data, 10),
        vec![196, 35, 39, 119, 235, 215, 231, 226, 93, 23]
    );
}
