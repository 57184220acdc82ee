use yunyin::provider::netease::qr;
use yunyin::tags::cover::fnv64;

fn digest(modules: &[bool]) -> u64 {
    let bytes: Vec<u8> = modules.iter().map(|b| *b as u8).collect();
    fnv64(&bytes)
}

const LOGIN: &[u8] = b"https://music.163.com/login?codekey=0123456789abcdef0123456789abcdef";

#[test]
fn format_words_of_level_l() {
    let words: Vec<u16> = (0..8).map(qr::format_bits).collect();
    assert_eq!(words, vec![0x77c4, 0x72f3, 0x7daa, 0x789d, 0x662f, 0x6318, 0x6c41, 0x6976]);
}

#[test]
fn versions_grow_with_the_data() {
    assert_eq!(qr::pick_version(17).unwrap().size, 21);
    assert_eq!(qr::pick_version(18).unwrap().size, 25);
    assert_eq!(qr::pick_version(106).unwrap().size, 37);
    assert_eq!(qr::pick_version(134).unwrap().size, 41);
    assert!(qr::pick_version(135).is_none());
    assert!(qr::version_of(0).is_none());
    assert!(qr::version_of(7).is_none());
}

#[test]
fn codewords_of_one_letter() {
    let ver = qr::pick_version(1).unwrap();
    assert_eq!(
        qr::encode(b"A", ver).unwrap(),
        vec![
            64, 20, 16, 236, 17, 236, 17, 236, 17, 236, 17, 236, 17, 236, 17, 236, 17, 236, 17, 82,
            75, 181, 59, 175, 141, 241
        ]
    );
    assert!(qr::encode(&[7; 17], ver).is_some());
    assert!(qr::encode(&[7; 18], ver).is_none());
}

#[test]
fn symbols_are_drawn_module_by_module() {
    let a = qr::matrix(b"A").unwrap();
    assert_eq!(a.size, 21);
    assert_eq!(digest(&a.modules), 0xd37d650a0b4d9a91);
    assert_eq!(qr::penalty(&a.modules, a.size), 167);
    let none = qr::matrix(b"").unwrap();
    assert_eq!(digest(&none.modules), 0x64127d929f7ceed1);
    let login = qr::matrix(LOGIN).unwrap();
    assert_eq!(login.size, 33);
    assert_eq!(qr::penalty(&login.modules, 33), 301);
    assert_eq!(digest(&login.modules), 0xb2dbf9eec6e4cde9);
    let full = qr::matrix(&[b'x'; 134]).unwrap();
    assert_eq!(full.size, 41);
    assert_eq!(digest(&full.modules), 0x119180d8389d16a);
    assert!(qr::matrix(&[b'x'; 135]).is_none());
}

#[test]
fn pictures_centre_the_symbol() {
    let px = qr::rgba(LOGIN).unwrap();
    assert_eq!(px.len(), 256 * 256 * 4);
    assert_eq!(fnv64(&px), 0x3d6f834d1bba925);
    assert_eq!(&px[0..4], &[255, 255, 255, 255]);
    let corner = ((5 + 4 * 6) * 256 + 5 + 4 * 6) * 4;
    assert_eq!(&px[corner..corner + 4], &[0, 0, 0, 255]);
    assert!(qr::rgba(&[0u8; 135]).is_none());
}
