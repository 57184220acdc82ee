use yunyin::json;
use yunyin::platform::fs;
use yunyin::platform::log::Log;
use yunyin::platform::ps_lock;
use yunyin::platform::ps_lock::PsLock;
use yunyin::platform::store;
use yunyin::text;
use yunyin::ui::cjk_host;
use yunyin::ui::cjk_host::Head;
use yunyin::ui::cjk_host::Op;
use yunyin::ui::font_gpu;
use yunyin::ui::font_gpu::FontRevisions;
use yunyin::ui::font_gpu::WholeRevision;
use yunyin::ui::frame_skip::FrameSkip;

#[test]
fn json_strings_are_escaped() {
    assert_eq!(json::json_escape("a\"\\\n\r\t\u{1}云"), "a\\\"\\\\\\n\\r\\t\\u0001云");
    let mut s = String::from("<");
    json::push_json_str(&mut s, "\n\t\"");
    assert_eq!(s, "<\\u000a\\u0009\\\"");
}

#[test]
fn text_is_cut_and_counted() {
    assert_eq!(text::trim(" \u{3000}a b\t"), "a b");
    assert_eq!(text::trim_right(" a \n"), " a");
    assert_eq!(text::lines("a\r\nb\n\nc"), vec!["a", "b", "", "c"]);
    assert_eq!(text::lines(""), Vec::<String>::new());
    assert_eq!(text::dec(0), "0");
    assert_eq!(text::dec(u64::MAX), "18446744073709551615");
    assert_eq!(text::dec_i64(i64::MIN), "-9223372036854775808");
    assert_eq!(text::hex_fixed(0xbeef, 8, true), "0000BEEF");
    assert_eq!(text::hex_fixed(0xbeef, 4, false), "beef");
    assert!(text::contains_text("abc", "bc") && !text::contains_text("abc", "cb"));
    assert!(text::contains_zero("a\0") && !text::contains_zero("a"));
    assert_eq!(text::strip_and_trim("\0 x \0", '\0'), "x");
    assert_eq!(text::split(&text::chars_of("a;;b"), ';'), vec!["a", "", "b"]);
    assert_eq!(text::parse_digits(&text::chars_of("123"), 122), None);
    assert_eq!(text::parse_digits(&text::chars_of("123"), 123), Some(123));
}

#[test]
fn listings_fall_back_to_nothing() {
    assert_eq!(fs::list_dir("ux0:", b"[1]xyz", 3), "[1]");
    assert_eq!(fs::list_dir("ux0:", b"[1]", 99), "[1]");
    assert_eq!(fs::list_dir("ux0:", b"[1]", 0), "[]");
    assert_eq!(fs::list_dir("ux0:", b"[1]", -5), "[]");
    assert_eq!(fs::list_dir("ux0\0:", b"[1]", 3), "[]");
    assert_eq!(fs::list_dir("u", &[b'"', 0xc3, b'"'], 3), "\"\u{fffd}\"");
    assert!(fs::roots_json().starts_with("[{\"id\":\"app0\",\"path\":\"app0:music\"}"));
}

#[test]
fn keys_stay_in_their_directory() {
    assert_eq!(store::sanitize("../net ease_cookie-1云"), "netease_cookie-1");
    assert_eq!(store::store_path("a/b"), "ux0:/data/yunyin/store/ab");
    assert_eq!(store::store_path(&store::sanitize("a/b")), "ux0:/data/yunyin/store/ab");
    let written = store::set_bytes("值");
    assert_eq!(written, vec![0xe5, 0x80, 0xbc]);
    assert_eq!(store::get(Some(&written)), "值");
    assert_eq!(store::get(None), "");
    assert_eq!(store::get(Some(&[0xff])), "\u{fffd}");
}

#[test]
fn the_log_is_off_by_default() {
    let mut l = Log::new();
    assert_eq!(l.append("x"), None);
    l.init(false);
    assert!(!l.enabled());
    l.init(true);
    l.init(false);
    assert!(l.enabled());
    assert_eq!(l.append("x"), Some("x\n".to_string()));
    assert_eq!(l.log_line(b"abc \n"), Some("abc\n".to_string()));
    assert_eq!(l.log_line(b""), None);
}

#[test]
fn the_button_is_told_once() {
    let mut p = PsLock::new();
    assert!(!p.set_locked(false));
    assert!(p.set_locked(true) && !p.set_locked(true));
    assert!(p.set_locked(false));
    assert_eq!(ps_lock::lock_line(true, 0x80020001), "ps btn lock: 1 -> 0x80020001");
    assert_eq!(ps_lock::lock_line(false, 0), "ps btn lock: 0 -> 0x00000000");
}

#[test]
fn equal_frames_are_skipped() {
    let mut f = FrameSkip::new();
    assert!(f.judge(&[1, 2], 5, false).changed);
    assert!(!f.judge(&[1, 2], 5, false).changed);
    assert!(f.judge(&[1, 2], 6, false).changed);
    assert!(f.judge(&[2, 1], 6, false).changed);
    let mut g = FrameSkip::new();
    for _ in 0..59 {
        assert!(g.judge(&[7], 0, true).line.is_none());
    }
    assert_eq!(g.judge(&[7], 0, true).line, Some("frame: words=1 present=0".to_string()));
}

#[test]
fn a_core_is_drawn_when_it_changes() {
    let mut ui = pocketjs_core::Ui::new();
    let mut f = FrameSkip::new();
    assert!(f.frame_changed(&mut ui, false).changed);
    assert!(!f.frame_changed(&mut ui, false).changed);
    assert_eq!(ui.upload_texture(&[1, 2, 3, 4], 1, 1, 3), 0);
    assert!(f.frame_changed(&mut ui, false).changed);
    assert!(!f.frame_changed(&mut ui, true).changed);
}

#[test]
fn fonts_without_atlases_need_no_refresh() {
    let mut ui = pocketjs_core::Ui::new();
    let mut r = FontRevisions::new();
    assert!(r.refresh_font_atlases(&ui).is_empty());
    let mut w = WholeRevision::new();
    assert!(w.refresh_font_atlases(&ui).is_empty());
    assert!(!cjk_host::font_stream_configure(&mut ui, Some(&[0u8; 20])));
    assert!(!cjk_host::font_stream_configure(&mut ui, None));
    assert_eq!(cjk_host::font_stream_commit(&mut ui, Some(&[0u8; 12])), 0);
    assert_eq!(cjk_host::font_stream_commit(&mut ui, None), 0);
    assert_eq!(cjk_host::font_stream_batch(&mut ui, Some(&[0u8; 16])), -3);
    assert_eq!(cjk_host::font_stream_batch(&mut ui, None), -3);
    assert_eq!(font_gpu::refresh_line(3, (5 << 16) | 9), "gpu: slot 3 cells 5..9");
    assert_eq!(font_gpu::refresh_line(3, -1), "gpu: slot 3 full refresh");
}

#[test]
fn local_requests_are_read() {
    assert!(matches!(cjk_host::local_submit(2, 1, "font.open", "a"), Head::Refused));
    assert!(matches!(cjk_host::local_submit(1, 0, "font.open", "a"), Head::Refused));
    match cjk_host::local_submit(1, 9, "font.open", "ux0:云") {
        Head::Submit(r) => {
            assert_eq!((r.id, r.op, cjk_host::op_code(r.op)), (9, Op::FontOpen, 1));
            assert_eq!(r.path, "ux0:云".as_bytes());
        }
        _ => panic!("not taken"),
    }
    assert!(matches!(cjk_host::local_submit(1, 9, "fs.read-text", &"p".repeat(128)), Head::Refused));
    assert!(matches!(cjk_host::local_submit(1, 9, "fs.read-text", &"p".repeat(127)), Head::Submit(_)));
    assert!(matches!(cjk_host::local_submit(1, 9, "font.glyphs", "{}"), Head::Glyphs));
    assert!(matches!(cjk_host::local_submit(1, 9, "font.glyphs", "{\0}"), Head::Refused));
    match cjk_host::local_submit(1, 9, "font.stats", &"p".repeat(500)) {
        Head::Submit(r) => assert!(r.op == Op::FontStats && r.path.is_empty()),
        _ => panic!("not taken"),
    }
    assert!(matches!(cjk_host::local_submit(1, 9, "font.close", ""), Head::Submit(r) if r.op == Op::FontClose));
    assert!(matches!(cjk_host::local_submit(1, 9, "else", ""), Head::Submit(r) if cjk_host::op_code(r.op) == 0));
}

#[test]
fn glyph_batches_are_small() {
    let q = cjk_host::local_glyphs(3, 8, 23, 2, &[0x4e00, 0x4e01, 7]).unwrap();
    assert_eq!((q.id, q.generation, q.slot), (3, 8, 23));
    assert_eq!(q.cps, vec![0x4e00, 0x4e01]);
    assert!(cjk_host::local_glyphs(3, 8, 24, 2, &[1, 2]).is_none());
    assert!(cjk_host::local_glyphs(3, 8, 1, 0, &[]).is_none());
    assert!(cjk_host::local_glyphs(3, 8, 1, 5, &[1, 2, 3, 4, 5]).is_none());
    assert_eq!(cjk_host::batch_count(4, 0), 4);
    assert_eq!(cjk_host::view_range(2, 3, 5), Some((2, 3)));
    assert_eq!(cjk_host::view_range(2, 4, 5), None);
    assert_eq!(cjk_host::view_range(-1, 3, 5), None);
    assert!(cjk_host::takes_request(&[b'a'; cjk_host::MAX_REQUEST]));
    assert!(!cjk_host::takes_request(&[b'a'; 4097]));
    assert_eq!(cjk_host::local_string(b"ab"), "ab");
    assert_eq!(cjk_host::local_string(&vec![b'a'; 4097]), "");
}
