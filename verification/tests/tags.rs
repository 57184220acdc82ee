use yunyin::provider::netease::crypto;
use yunyin::tags;
use yunyin::tags::base64;
use yunyin::tags::cover;
use yunyin::tags::cover::CoverHandles;
use yunyin::tags::cover::CoverStart;
use yunyin::tags::flac;
use yunyin::tags::id3;
use yunyin::tags::image;
use yunyin::tags::numbers;
use yunyin::tags::vorbis;

const JPEG: [u8; 6] = [0xff, 0xd8, 0xff, 0xe0, 1, 2];
const PNG: [u8; 9] = [0x89, 0x50, 0x4e, 0x47, 0x0d, 0x0a, 0x1a, 0x0a, 7];

fn safe(n: usize) -> [u8; 4] {
    [(n >> 21) as u8 & 127, (n >> 14) as u8 & 127, (n >> 7) as u8 & 127, n as u8 & 127]
}

fn frame(id: &[u8], data: &[u8]) -> Vec<u8> {
    let mut f = id.to_vec();
    f.extend_from_slice(&safe(data.len()));
    f.extend_from_slice(&[0, 0]);
    f.extend_from_slice(data);
    f
}

fn tag(frames: &[Vec<u8>]) -> Vec<u8> {
    let body: Vec<u8> = frames.concat();
    let mut t = vec![b'I', b'D', b'3', 4, 0, 0];
    t.extend_from_slice(&safe(body.len()));
    t.extend_from_slice(&body);
    t
}

fn utf16le(s: &str) -> Vec<u8> {
    let mut v = vec![0xff, 0xfe];
    for u in s.encode_utf16() {
        v.extend_from_slice(&u.to_le_bytes());
    }
    v
}

fn page(packet: &[u8]) -> Vec<u8> {
    let mut p = b"OggS".to_vec();
    p.extend_from_slice(&[0u8; 22]);
    let mut segs: Vec<u8> = Vec::new();
    let mut left = packet.len();
    while left >= 255 {
        segs.push(255);
        left -= 255;
    }
    segs.push(left as u8);
    p.push(segs.len() as u8);
    p.extend_from_slice(&segs);
    p.extend_from_slice(packet);
    p
}

fn comments(list: &[Vec<u8>]) -> Vec<u8> {
    let mut b = vec![3u8];
    b.extend_from_slice(b"vorbis");
    b.extend_from_slice(&4u32.to_le_bytes());
    b.extend_from_slice(b"vend");
    b.extend_from_slice(&(list.len() as u32).to_le_bytes());
    for c in list {
        b.extend_from_slice(&(c.len() as u32).to_le_bytes());
        b.extend_from_slice(c);
    }
    b
}

fn picture_block(img: &[u8]) -> Vec<u8> {
    let mut b = 3u32.to_be_bytes().to_vec();
    b.extend_from_slice(&10u32.to_be_bytes());
    b.extend_from_slice(b"image/jpeg");
    b.extend_from_slice(&0u32.to_be_bytes());
    b.extend_from_slice(&[0u8; 16]);
    b.extend_from_slice(&(img.len() as u32).to_be_bytes());
    b.extend_from_slice(img);
    b
}

#[test]
fn numbers_are_read_in_their_order() {
    assert_eq!(numbers::synchsafe(&[0, 0, 2, 1]), 257);
    assert_eq!(numbers::synchsafe(&[0xff, 0xff, 0xff, 0xff]), 0x0fff_ffff);
    assert_eq!(numbers::be32(&[1, 2, 3, 4, 9]), 0x0102_0304);
    assert_eq!(numbers::le32(&[1, 2, 3, 4]), 0x0403_0201);
    assert_eq!(numbers::be32(&[1, 2, 3]), 0);
    assert_eq!(numbers::find_zero(&[1, 0, 0], 2), Some(2));
    assert_eq!(numbers::find_zero(&[1, 2], 0), None);
    assert_eq!(numbers::find_zero_pair(&[1, 0, 0, 0], 0), Some(2));
}

#[test]
fn pictures_are_found_by_signature() {
    let mut junk = vec![1, 2, 3];
    junk.extend_from_slice(&JPEG);
    assert_eq!(image::image_payload(&junk), Some(JPEG.to_vec()));
    assert_eq!(image::image_payload(&PNG), Some(PNG.to_vec()));
    assert_eq!(image::image_payload(&PNG[..7]), None);
    assert_eq!(image::image_payload(&[0xff, 0xd8, 0xff]), None);
    assert_eq!(image::picture_or_rest(vec![5, 6]), vec![5, 6]);
    let mut large = vec![0xff, 0xd8];
    large.resize(image::MAX_ART + 1, 0);
    assert_eq!(image::image_payload(&large), None);
}

#[test]
fn text_frames_decode_their_encodings() {
    let mut wide = vec![1u8];
    wide.extend_from_slice(&utf16le("云音"));
    let mut big = vec![1u8, 0xfe, 0xff];
    for u in "歌手".encode_utf16() {
        big.extend_from_slice(&u.to_be_bytes());
    }
    let t = tag(&[
        frame(b"TIT2", &wide),
        frame(b"TPE1", &big),
        frame(b"TALB", b"\x03 Album \0"),
    ]);
    assert_eq!(id3::extract_id3_text(&t, &tags::TIT2), "云音");
    assert_eq!(id3::extract_id3_text(&t, &tags::TPE1), "歌手");
    assert_eq!(id3::extract_id3_text(&t, &tags::TALB), "Album");
    assert_eq!(id3::extract_id3_text(&t, b"TCON"), "");
    assert_eq!(id3::walk_id3_frames(&t).len(), 3);
    assert_eq!(id3::walk_id3_frames(b"ID3").len(), 0);
    assert_eq!(id3::walk_id3_frames(b"XD3\x04\0\0\0\0\0\0").len(), 0);
}

#[test]
fn frames_end_at_padding_and_overruns() {
    let mut t = tag(&[frame(b"TIT2", b"\x03a"), vec![0u8; 20]]);
    assert_eq!(id3::walk_id3_frames(&t).len(), 1);
    t.truncate(15);
    assert_eq!(id3::walk_id3_frames(&t).len(), 0);
    let mut v3 = tag(&[frame(b"TIT2", b"\x03abc")]);
    v3[3] = 3;
    assert_eq!(id3::extract_id3_text(&v3, &tags::TIT2), "abc");
}

#[test]
fn picture_frames_give_the_picture() {
    let mut data = vec![0u8];
    data.extend_from_slice(b"image/jpeg\0\x03cover\0");
    data.extend_from_slice(&JPEG);
    let t = tag(&[frame(b"APIC", &data)]);
    assert_eq!(id3::extract_id3_apic(&t), Some(JPEG.to_vec()));
    assert_eq!(tags::extract_cover_bytes(&t), Some(JPEG.to_vec()));
    assert_eq!(cover::cover_art(&t), Some(JPEG.to_vec()));
    assert_eq!(cover::cover_art(&[]), None);
    assert_eq!(id3::extract_id3_apic(&tag(&[frame(b"APIC", b"\0x")])), None);
}

#[test]
fn lyrics_come_from_their_frames() {
    let mut uslt = vec![3u8];
    uslt.extend_from_slice(b"engdesc\0[00:01]la");
    let t = tag(&[frame(b"USLT", &uslt)]);
    assert_eq!(id3::extract_uslt(&t), "[00:01]la");
    assert_eq!(tags::extract_embedded_lyrics(&t), "[00:01]la");
    let txxx = tag(&[frame(b"TXXX", b"\x03LYRICS\0words")]);
    assert_eq!(id3::extract_txxx(&txxx, &["lyrics"]), "words");
    assert_eq!(id3::extract_txxx(&txxx, &["other"]), "");
    assert_eq!(tags::extract_embedded_lyrics(&txxx), "words");
    let mut wide = vec![1u8, b'e', b'n', b'g'];
    wide.extend_from_slice(&utf16le(""));
    wide.extend_from_slice(&[0, 0]);
    wide.extend_from_slice(&utf16le("歌词"));
    assert_eq!(id3::extract_uslt(&tag(&[frame(b"USLT", &wide)])), "歌词");
    assert_eq!(id3::decode_id3_from(b"\x03ab\0cd", 3, 1), "ab");
    assert_eq!(id3::id3_cstr_end(b"\x03ab\0cd", 3, 1), 4);
}

#[test]
fn comments_are_found_by_key() {
    let mut ogg = page(b"\x01vorbis....");
    ogg.extend_from_slice(&page(&comments(&[
        b"TITLE=  ".to_vec(),
        b"title= Song ".to_vec(),
        b"ARTIST=A=B".to_vec(),
        vec![0xff, b'=', b'x'],
        b"LYRICS=la".to_vec(),
    ])));
    assert_eq!(vorbis::extract_ogg_text(&ogg, "TITLE"), "Song");
    assert_eq!(vorbis::extract_ogg_text(&ogg, "ARTIST"), "A=B");
    assert_eq!(vorbis::extract_ogg_text(&ogg, "ALBUM"), "");
    assert_eq!(tags::extract_embedded_lyrics(&ogg), "la");
    assert_eq!(
        tags::tags_json(&ogg),
        "{\"title\":\"Song\",\"artist\":\"A=B\",\"album\":\"\",\"cover\":false,\"lyrics\":\"la\"}"
    );
    ogg.truncate(ogg.len() - 1);
    assert_eq!(vorbis::extract_ogg_text(&ogg, "TITLE"), "");
}

#[test]
fn comment_pictures_are_decoded() {
    let mut c = b"metadata_block_picture=".to_vec();
    c.extend_from_slice(crypto::base64(&picture_block(&JPEG)).as_bytes());
    let ogg = page(&comments(&[c]));
    assert_eq!(vorbis::extract_ogg_picture(&ogg), Some(JPEG.to_vec()));
    assert!(tags::tags_json(&ogg).contains("\"cover\":true"));
}

#[test]
fn comments_may_span_pages() {
    let body = comments(&[[b"TITLE=".to_vec(), vec![b'x'; 600]].concat()]);
    let mut first = b"OggS".to_vec();
    first.extend_from_slice(&[0u8; 22]);
    first.extend_from_slice(&[1, 255]);
    first.extend_from_slice(&body[..255]);
    let mut ogg = first;
    ogg.extend_from_slice(&page(&body[255..]));
    assert_eq!(vorbis::extract_ogg_text(&ogg, "TITLE"), "x".repeat(600));
}

#[test]
fn flac_picture_blocks() {
    let block = picture_block(&PNG);
    let mut f = b"fLaC".to_vec();
    f.extend_from_slice(&[0, 0, 0, 2, 9, 9]);
    f.push(0x86);
    f.extend_from_slice(&[0, 0, block.len() as u8]);
    f.extend_from_slice(&block);
    assert_eq!(flac::extract_flac_picture(&f), Some(PNG.to_vec()));
    assert_eq!(flac::flac_picture_data(&block), Some(PNG.to_vec()));
    assert_eq!(flac::flac_picture_data(&block[..31]), None);
    f.truncate(f.len() - 1);
    assert_eq!(flac::extract_flac_picture(&f), None);
}

#[test]
fn base64_is_decoded() {
    assert_eq!(base64::b64_decode("Zm9vYmFy"), Some(b"foobar".to_vec()));
    assert_eq!(base64::b64_decode("Zg=="), Some(b"f".to_vec()));
    let all: Vec<u8> = (0..=255).collect();
    assert_eq!(base64::b64_decode(&crypto::base64(&all)), Some(all));
}

#[test]
fn nothing_is_told_of_an_empty_file() {
    assert_eq!(tags::tags_json(b""), "{\"title\":\"\",\"artist\":\"\",\"album\":\"\",\"cover\":false}");
    assert_eq!(
        tags::tags_json(b"x"),
        "{\"title\":\"\",\"artist\":\"\",\"album\":\"\",\"cover\":false,\"lyrics\":\"\"}"
    );
    assert_eq!(
        tags::tags_object("a\"b", "c\\", "\t", true, "\n"),
        "{\"title\":\"a\\\"b\",\"artist\":\"c\\\\\",\"album\":\"\\t\",\"cover\":true,\"lyrics\":\"\\n\"}"
    );
}

#[test]
fn prefixes_are_bounded() {
    assert_eq!(cover::prefix_len(b"ID3\x04\0\0\0\0\x02\x01"), 10 + 257);
    assert_eq!(cover::prefix_len(b"ID3\x04\0\0\x7f\x7f\x7f\x7f"), cover::PREFIX_CAP);
    assert_eq!(cover::prefix_len(b"fLaC1234"), cover::PREFIX_CAP / 2);
    assert_eq!(cover::prefix_len(b"abc"), 3);
    assert_eq!(cover::prefix_len(b""), 0);
}

#[test]
fn the_cache_belongs_to_a_size() {
    assert_eq!(cover::fnv64(b"a"), 0xaf63dc4c8601ec8c);
    assert_eq!(
        cover::cover_cache_path("a"),
        Some("ux0:/data/yunyin/covers/af63dc4c8601ec8c.rgba".to_string())
    );
    assert_eq!(cover::cover_cache_path(""), None);
    let px = vec![7u8; cover::COVER_BYTES];
    let entry = cover::cover_cache_entry(0x0102, &px).unwrap();
    assert_eq!(&entry[..8], &[2, 1, 0, 0, 0, 0, 0, 0]);
    assert_eq!(cover::cover_cache_rgba(&entry, 0x0102), Some(px.clone()));
    assert_eq!(cover::cover_cache_rgba(&entry, 0x0103), None);
    assert_eq!(cover::cover_cache_rgba(&entry[1..], 0x0102), None);
    assert_eq!(cover::cover_cache_entry(0, &px), None);
    assert_eq!(cover::cover_cache_entry(1, &px[1..]), None);
}

#[test]
fn covers_are_uploaded_once() {
    let mut ui = pocketjs_core::Ui::new();
    let mut h = CoverHandles::empty();
    assert_eq!(h.start(""), CoverStart::Answer(-1));
    assert_eq!(h.start("a"), CoverStart::Load);
    assert_eq!(cover::upload_cover(&mut ui, &mut h, "a", &[1, 2, 3]), -1);
    assert_eq!(h.start("a"), CoverStart::Load);
    let px = vec![5u8; cover::COVER_BYTES];
    let first = cover::upload_cover(&mut ui, &mut h, "a", &px);
    assert_eq!(first, 0);
    assert_eq!(ui.texture(first).unwrap().pixels, &px[..]);
    assert_eq!(cover::upload_cover(&mut ui, &mut h, "b", &px), 1);
    assert_eq!(h.start("a"), CoverStart::Answer(0));
    assert_eq!(h.get("b"), Some(1));
    assert_eq!(h.get("c"), None);
    h.finish("c", -1);
    assert_eq!(h.get("c"), None);
}

#[test]
fn decoded_pictures_are_measured() {
    assert_eq!(cover::decoded_bytes(0, true, 3, 5), Some(60));
    assert_eq!(cover::decoded_bytes(1, true, 3, 5), None);
    assert_eq!(cover::decoded_bytes(0, false, 3, 5), None);
    assert_eq!(cover::decoded_bytes(0, true, 0, 5), None);
}

fn flac_file(blocks: &[(u8, Vec<u8>)]) -> Vec<u8> {
    let mut f = b"fLaC".to_vec();
    for (i, (kind, body)) in blocks.iter().enumerate() {
        let last = if i + 1 == blocks.len() { 128 } else { 0 };
        f.extend_from_slice(&[kind | last, 0, (body.len() >> 8) as u8, body.len() as u8]);
        f.extend_from_slice(body);
    }
    f
}

#[test]
fn flac_comments_are_read() {
    let list = [
        b"TITLE=Hi".to_vec(),
        b"ARTIST=Me".to_vec(),
        b"ALBUM=X".to_vec(),
        b"LYRICS=la".to_vec(),
    ];
    let body = comments(&list)[7..].to_vec();
    let f = flac_file(&[(0, vec![0; 34]), (4, body.clone())]);
    assert_eq!(
        tags::tags_json(&f),
        "{\"title\":\"Hi\",\"artist\":\"Me\",\"album\":\"X\",\"cover\":false,\"lyrics\":\"la\"}"
    );
    assert_eq!(flac::extract_flac_comments(&f), Some(body.clone()));
    let other = comments(&[b"TITLE=No".to_vec()])[7..].to_vec();
    let two = flac_file(&[(4, body.clone()), (4, other), (6, picture_block(&JPEG))]);
    assert_eq!(vorbis::extract_ogg_text(&two, "title"), "Hi");
    assert_eq!(tags::extract_cover_bytes(&two), Some(JPEG.to_vec()));
    let cut = &f[..f.len() - 1];
    assert_eq!(flac::extract_flac_comments(cut), None);
    assert_eq!(tags::extract_embedded_lyrics(cut), "");
    assert_eq!(flac::extract_flac_comments(&flac_file(&[(0, vec![0; 34])])), None);
    assert_eq!(flac::extract_flac_comments(&body), None);
}

#[test]
fn opus_comments_are_read() {
    let mut packet = b"OpusTags".to_vec();
    packet.extend_from_slice(&comments(&[b"title=Op".to_vec(), b"LYRICS=o".to_vec()])[7..]);
    let mut f = page(b"OpusHead\x01\x02\0\0\0\0\0\0\0\0\0");
    f.extend_from_slice(&page(&packet));
    assert_eq!(vorbis::extract_ogg_text(&f, "TITLE"), "Op");
    assert_eq!(tags::extract_embedded_lyrics(&f), "o");
}

#[test]
fn long_descriptions_keep_the_cover() {
    let mut data = vec![1u8];
    data.extend_from_slice(b"image/jpeg\0\x03");
    data.extend_from_slice(&utf16le("a description longer than the picture"));
    data.extend_from_slice(&[0, 0]);
    data.extend_from_slice(&JPEG);
    assert_eq!(id3::extract_id3_apic(&tag(&[frame(b"APIC", &data)])), Some(JPEG.to_vec()));
    data.truncate(data.len() - JPEG.len() - 2);
    assert_eq!(id3::extract_id3_apic(&tag(&[frame(b"APIC", &data)])), None);
}
