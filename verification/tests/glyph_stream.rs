use yunyin::ui::cjk_host;
use yunyin::ui::font_gpu::FontRevisions;
use yunyin::ui::font_gpu::WholeRevision;

fn atlas(slot: u8) -> Vec<u8> {
    let mut b = 0x41464344u32.to_le_bytes().to_vec();
    b.extend_from_slice(&3u16.to_le_bytes());
    b.extend_from_slice(&2u16.to_le_bytes());
    b.extend_from_slice(&[8, 8, 7, 10, slot, 0, 1, 0]);
    for (cp, gid, advance) in [(65u32, 1u16, 6u8), (0xfffd, 0, 8)] {
        b.extend_from_slice(&cp.to_le_bytes());
        b.extend_from_slice(&gid.to_le_bytes());
        b.extend_from_slice(&[advance, 0]);
    }
    b.extend_from_slice(&[0u8; 128]);
    b
}

fn descriptor(generation: u32, slot: u8) -> [u8; 20] {
    let mut b = [0u8; 20];
    b[..4].copy_from_slice(&0x31534650u32.to_le_bytes());
    b[4..8].copy_from_slice(&generation.to_le_bytes());
    b[8..15].copy_from_slice(&[slot, 8, 8, 7, 10, 8, 1]);
    b[16..18].copy_from_slice(&4u16.to_le_bytes());
    b
}

fn request(id: u32, action: u8, slot: u8, text: &str) -> Vec<u8> {
    let mut b = vec![0u8; 16];
    b[..4].copy_from_slice(&0x31424650u32.to_le_bytes());
    b[4..8].copy_from_slice(&1u32.to_le_bytes());
    b[8] = slot;
    b[9] = action;
    b[12..16].copy_from_slice(&id.to_le_bytes());
    for c in text.chars() {
        b.extend_from_slice(&(c as u32).to_le_bytes());
    }
    b
}

fn glyph(slot: u8, c: char) -> Vec<u8> {
    let mut b = vec![0u8; 36];
    b[..4].copy_from_slice(&0x31474650u32.to_le_bytes());
    b[4..8].copy_from_slice(&1u32.to_le_bytes());
    b[8..12].copy_from_slice(&[slot, 1, 8, 8]);
    b[12..16].copy_from_slice(&(c as u32).to_le_bytes());
    b[16] = 8;
    b[18] = 1;
    b[20..].fill(255);
    b
}

#[test]
fn slots_are_refreshed_when_their_glyphs_change() {
    let mut ui = pocketjs_core::Ui::new();
    let mut fonts = FontRevisions::new();
    assert!(ui.load_font_atlas(&atlas(2)));
    assert!(ui.load_font_atlas(&atlas(7)));
    assert_eq!(fonts.refresh_font_atlases(&ui), vec![2, 7]);
    assert_eq!(fonts.refresh_font_atlases(&ui), Vec::<u8>::new());
    assert!(cjk_host::font_stream_configure(&mut ui, Some(&descriptor(1, 2))));
    assert_eq!(fonts.refresh_font_atlases(&ui), vec![2]);
    assert_eq!(cjk_host::font_stream_batch(&mut ui, Some(&request(5, 0, 2, "云"))), 0);
    assert_eq!(fonts.refresh_font_atlases(&ui), Vec::<u8>::new());
    assert_eq!(cjk_host::font_stream_commit(&mut ui, Some(&glyph(2, '云'))), 1);
    assert_eq!(fonts.refresh_font_atlases(&ui), vec![2]);
    assert_eq!(cjk_host::font_stream_batch(&mut ui, Some(&request(5, 1, 2, ""))), 1);
    assert_eq!(cjk_host::font_stream_commit(&mut ui, Some(&glyph(2, '云'))), 0);
    assert_eq!(fonts.refresh_font_atlases(&ui), Vec::<u8>::new());
}

#[test]
fn pictures_refresh_no_font() {
    let mut ui = pocketjs_core::Ui::new();
    assert!(ui.load_font_atlas(&atlas(3)));
    let mut fonts = FontRevisions::new();
    let mut whole = WholeRevision::new();
    assert_eq!(fonts.refresh_font_atlases(&ui), vec![3]);
    assert_eq!(whole.refresh_font_atlases(&ui), vec![3]);
    assert_eq!(ui.upload_texture(&[0; 4], 1, 1, 3), 0);
    assert_eq!(fonts.refresh_font_atlases(&ui), Vec::<u8>::new());
    assert_eq!(whole.refresh_font_atlases(&ui), vec![3]);
    assert_eq!(whole.refresh_font_atlases(&ui), Vec::<u8>::new());
}
