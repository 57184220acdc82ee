use yunyin::provider::netease::account::Session;
use yunyin::provider::netease::answer;
use yunyin::provider::netease::api;
use yunyin::provider::netease::api::Call;
use yunyin::provider::netease::api::Flavour;
use yunyin::provider::netease::crypto;
use yunyin::provider::netease::resolve;
use yunyin::provider::netease::resolve::CachedUrl;
use yunyin::provider::netease::resolve::Lookup;
use yunyin::provider::netease::resolve::UrlCache;
use yunyin::provider::netease::NetEaseProvider;
use yunyin::provider::netease;
use yunyin::provider::AudioFormat;
use yunyin::provider::AudioInfo;
use yunyin::provider::MusicProvider;
use yunyin::provider::ProviderError;
use yunyin::provider::Quality;

fn cached(song: &str, quality: Quality, url: &str, expires_at_ms: u64) -> CachedUrl {
    CachedUrl {
        song_id: song.to_string(),
        quality,
        url: url.to_string(),
        size: Some(9),
        bitrate: 320000,
        expires_at_ms,
    }
}

#[test]
fn formats_are_told_from_bytes() {
    assert_eq!(AudioFormat::sniff(b"fLaC1234"), AudioFormat::Flac);
    assert_eq!(AudioFormat::sniff(b"OggS....OpusHead"), AudioFormat::Opus);
    assert_eq!(AudioFormat::sniff(b"OggS....vorbis"), AudioFormat::OggVorbis);
    assert_eq!(AudioFormat::sniff(b"\0\0\0\x20ftypM4A "), AudioFormat::M4a);
    assert_eq!(AudioFormat::sniff(b"\0\0\0\x20ftypM4A"), AudioFormat::Unknown);
    assert_eq!(AudioFormat::sniff(b"RIFF....WAVE"), AudioFormat::Wav);
    assert_eq!(AudioFormat::sniff(b"XXXX\x00\x00\x00\x00WAVE"), AudioFormat::Unknown);
    assert_eq!(AudioFormat::sniff(b"ID3.....WAVE"), AudioFormat::Mp3);
    assert_eq!(AudioFormat::sniff(b"ID3\x04"), AudioFormat::Mp3);
    assert_eq!(AudioFormat::sniff(&[0xff, 0xfb]), AudioFormat::Mp3);
    assert_eq!(AudioFormat::sniff(&[0xff, 0x1f]), AudioFormat::Unknown);
    assert_eq!(AudioFormat::sniff(b""), AudioFormat::Unknown);
    let mut late = b"OggS".to_vec();
    late.extend_from_slice(&[0u8; 58]);
    late.extend_from_slice(b"OpusHead");
    assert_eq!(AudioFormat::sniff(&late), AudioFormat::OggVorbis);
}

#[test]
fn formats_have_names() {
    let names: Vec<&str> = [
        AudioFormat::Mp3,
        AudioFormat::OggVorbis,
        AudioFormat::Opus,
        AudioFormat::Wav,
        AudioFormat::Flac,
        AudioFormat::M4a,
        AudioFormat::Unknown,
    ]
    .iter()
    .map(|f| f.name())
    .collect();
    assert_eq!(names, vec!["mp3", "ogg", "opus", "wav", "flac", "m4a", "unknown"]);
    assert!(AudioFormat::Flac.is_playable());
    assert!(!AudioFormat::Unknown.is_playable());
}

#[test]
fn local_files_describe_themselves() {
    let a = AudioInfo::local("ux0:/a.mp3", AudioFormat::Mp3, Some(12));
    assert_eq!(a.describe(), "local mp3 0ms bitrate=0 size=Some(12) src=");
    assert_eq!(a.expires_at, 0);
    let b = AudioInfo::local("x", AudioFormat::Unknown, None);
    assert_eq!(b.describe(), "local unknown 0ms bitrate=0 size=None src=");
}

#[test]
fn sessions_hold_a_cookie() {
    let mut s = Session::anonymous();
    assert!(!s.is_logged_in() && !s.is_vip());
    assert_eq!(s.cookie_header(), None);
    s.load("MUSIC_U=1");
    assert!(s.is_logged_in());
    assert_eq!(s.cookie_header(), Some("MUSIC_U=1".to_string()));
    assert_eq!(netease::session_cookie(&s), Some("MUSIC_U=1".to_string()));
    s.clear();
    assert_eq!(netease::session_cookie(&s), None);
    assert!(!Session::from_cookie("").is_logged_in());
}

#[test]
fn provider_answers_for_itself() {
    let p = NetEaseProvider::new();
    assert_eq!(api::provider_name(&p), "netease");
    assert!(!p.session().is_logged_in());
    let mut cache = UrlCache::default();
    let r = p.resolve("12x", Quality::Auto, &mut cache, 0, Err(ProviderError::Cancelled));
    assert_eq!(r.unwrap_err(), ProviderError::NotFound);
    let r = p.resolve("12", Quality::Auto, &mut cache, 0, Err(ProviderError::Auth("no".to_string())));
    assert_eq!(r.unwrap_err(), ProviderError::Auth("no".to_string()));
}

#[test]
fn anonymous_addresses_need_an_id() {
    assert_eq!(
        netease::anonymous_media_url("347230"),
        Some("https://music.163.com/song/media/outer/url?id=347230.mp3".to_string())
    );
    assert_eq!(netease::anonymous_media_url(""), None);
    assert_eq!(netease::anonymous_media_url("34a"), None);
    assert_eq!(netease::anonymous_media_url("123456789012345678901"), None);
}

#[test]
fn qualities_map_onto_levels() {
    assert_eq!(netease::quality_id(Quality::Auto), "exhigh");
    assert_eq!(netease::quality_id(Quality::Low), "standard");
    assert_eq!(netease::quality_id(Quality::Medium), "higher");
    assert_eq!(netease::quality_id(Quality::High), "exhigh");
    assert_eq!(netease::quality_id(Quality::Lossless), "lossless");
}

#[test]
fn answers_are_picked_by_key() {
    let body = "{\"code\": 200,\"data\":{\"url\":\"http:\\/\\/a\\\"b\",\"size\":12345678901,\"n\":-7,\"e\":\"\"}}";
    assert_eq!(answer::json_string(body, "url"), Some("http://a\"b".to_string()));
    assert_eq!(answer::json_string(body, "e"), None);
    assert_eq!(answer::json_string(body, "code"), None);
    assert_eq!(answer::json_i32(body, "code"), Some(200));
    assert_eq!(answer::json_i32(body, "n"), Some(-7));
    assert_eq!(answer::json_i32(body, "size"), None);
    assert_eq!(answer::json_u64(body, "size"), Some(12345678901));
    assert_eq!(answer::json_u64(body, "n"), None);
    assert_eq!(answer::json_u64(body, "missing"), None);
}

#[test]
fn calls_are_dressed_as_forms() {
    let c = Call::url_quality("347230", Quality::Auto, "exhigh");
    assert_eq!(c.path, "/api/song/enhance/player/url/v1");
    assert_eq!(c.params[0], ("ids".to_string(), "[347230]".to_string()));
    assert_eq!(c.params[2].1, "mp3");
    assert_eq!(Call::url_quality("1", Quality::Lossless, "lossless").params[2].1, "flac");
    let mut state = crypto::SECRET_SEED;
    let f = api::call(&c, "", &mut state, 12345).unwrap();
    assert_eq!(f.url, "https://music.163.com/weapi/song/enhance/player/url/v1");
    assert_eq!(f.cookie, "os=pc");
    assert_eq!(f.referer, "https://music.163.com/");
    assert!(f.body.starts_with("params=BWuSOs3aa2KjZMGr2lJFWvPBKj5O%2BbYlnBapqcg6d9x88Djs"));
    assert!(f.body.contains("%3D%3D&encSecKey=4d1ffbc5ef8303da"));
    assert_eq!(state, 0x9e86f3ca145044d4);
}

#[test]
fn only_weapi_calls_are_made() {
    let mut c = Call::url_quality("1", Quality::Low, "standard");
    c.flavour = Flavour::EApi;
    let mut state = 7u64;
    assert_eq!(api::call(&c, "", &mut state, 1).unwrap_err(), ProviderError::Unsupported);
    c.flavour = Flavour::Plain;
    assert_eq!(api::call(&c, "", &mut state, 1).unwrap_err(), ProviderError::Unsupported);
    assert_eq!(state, 7);
}

#[test]
fn forms_refuse_zero_characters() {
    let mut state = 1u64;
    let bad = api::post_weapi("/api/x\0y", "{}", "a=b", &mut state, 1).unwrap_err();
    assert_eq!(bad, ProviderError::Network("bad url".to_string()));
    let bad = api::post_weapi("/api/x", "{}", "a=b\0", &mut state, 1).unwrap_err();
    assert_eq!(bad, ProviderError::Network("bad cookie".to_string()));
    let good = api::post_weapi("/api/x/api/y", "{}", "a=b", &mut state, 1).unwrap();
    assert_eq!(good.url, "https://music.163.com/weapi/x/api/y");
    assert_eq!(good.cookie, "a=b");
}

#[test]
fn replies_are_read() {
    assert_eq!(
        api::read_reply(-5, 200, b"", b"").unwrap_err(),
        ProviderError::Network("post -5".to_string())
    );
    assert_eq!(
        api::read_reply(3, 404, b"abc", b"").unwrap_err(),
        ProviderError::Network("status 404".to_string())
    );
    let (body, cookie) = api::read_reply(2, 200, b"abc", b"k=v\0junk").unwrap();
    assert_eq!((body.as_str(), cookie.as_str()), ("ab", "k=v"));
    let (body, cookie) = api::read_reply(99, 200, &[b'a', 0xff, b'b'], b"k").unwrap();
    assert_eq!((body.as_str(), cookie.as_str()), ("a\u{fffd}b", "k"));
}

#[test]
fn entries_go_stale_early() {
    let e = cached("1", Quality::Auto, "http://a", 1_000_000);
    assert!(e.is_usable_at(819_999));
    assert!(!e.is_usable_at(820_000));
    assert!(cached("1", Quality::Auto, "u", 0).is_usable_at(u64::MAX));
    assert!(!cached("1", Quality::Auto, "u", 5).is_usable_at(0));
}

#[test]
fn cache_replaces_and_forgets() {
    let mut c = UrlCache::empty();
    c.put(cached("1", Quality::Auto, "http://a", 0));
    c.put(cached("1", Quality::Low, "http://b", 0));
    c.put(cached("2", Quality::Auto, "http://c", 0));
    c.put(cached("1", Quality::Auto, "http://d", 0));
    assert_eq!(c.len(), 3);
    assert_eq!(c.get("1", Quality::Auto, 5).unwrap().url, "http://d");
    assert_eq!(c.get("1", Quality::Low, 5).unwrap().url, "http://b");
    assert!(c.get("1", Quality::High, 5).is_none());
    c.invalidate("1");
    assert_eq!(c.len(), 1);
    assert!(c.get("1", Quality::Low, 5).is_none());
    assert_eq!(c.get("2", Quality::Auto, 5).unwrap().url, "http://c");
}

#[test]
fn resolving_asks_once() {
    let mut c = UrlCache::empty();
    assert!(matches!(resolve::resolve("77", Quality::High, &c, 1000), Lookup::Ask(_)));
    let body = "{\"data\":[{\"url\":\"https://m.126.net/x.flac\",\"br\":999000,\"size\":31,\"type\":\"flac\"}],\"code\":200}";
    let info = resolve::fetch("77", Quality::High, &mut c, 1000, Ok(body.to_string())).unwrap();
    assert_eq!(info.url, "https://m.126.net/x.flac");
    assert_eq!(info.format, AudioFormat::Flac);
    assert_eq!((info.bitrate, info.size, info.expires_at), (999000, Some(31), 721000));
    assert_eq!(info.describe(), "netease flac 0ms bitrate=999000 size=Some(31) src=77");
    let again = resolve::fetch("77", Quality::High, &mut c, 2000, Err(ProviderError::Expired)).unwrap();
    assert_eq!(again.url, "https://m.126.net/x.flac");
    assert_eq!(again.expires_at, 721000);
    let late = resolve::fetch("77", Quality::High, &mut c, 600_000, Err(ProviderError::Expired));
    assert_eq!(late.unwrap_err(), ProviderError::Expired);
}

#[test]
fn resolving_needs_a_web_address() {
    let mut c = UrlCache::empty();
    let r = resolve::fetch("77", Quality::Auto, &mut c, 0, Ok("{\"url\":\"ftp://x\"}".to_string()));
    assert_eq!(r.unwrap_err(), ProviderError::NotFound);
    let r = resolve::fetch("77", Quality::Auto, &mut c, 0, Ok("{\"url\":null}".to_string()));
    assert_eq!(r.unwrap_err(), ProviderError::NotFound);
    assert_eq!(c.len(), 0);
    let p = resolve::parse_song_url("{\"url\":\"http://x\"}").unwrap();
    assert_eq!((p.size, p.bitrate, p.kind.as_str()), (None, 0, ""));
}

#[test]
fn anonymous_addresses_are_replaced() {
    let outer = "https://music.163.com/song/media/outer/url?id=347230.mp3";
    assert_eq!(resolve::outer_song_id(outer), Some("347230".to_string()));
    assert_eq!(resolve::outer_song_id("https://music.163.com/song?id=1"), None);
    let mut c = UrlCache::empty();
    let asked = resolve::play_question(outer, &c, 0).unwrap();
    assert_eq!(asked.params[0].1, "[347230]");
    assert_eq!(asked.params[1].1, "standard");
    assert!(resolve::play_question("https://x.org/a.mp3", &c, 0).is_none());
    let (url, referer) = resolve::prepare_play_url(outer, "", &mut c, 0, Err(ProviderError::VipRequired));
    assert_eq!((url.as_str(), referer.as_str()), (outer, "https://music.163.com/"));
    let body = "{\"url\":\"https://m.126.net/a\"}".to_string();
    let (url, referer) = resolve::prepare_play_url(outer, "", &mut c, 0, Ok(body.clone()));
    assert_eq!((url.as_str(), referer.as_str()), ("https://m.126.net/a", "https://music.163.com/"));
    assert!(resolve::play_question(outer, &c, 1).is_none());
    let (url, _) = resolve::prepare_play_url(outer, "", &mut c, 1, Err(ProviderError::Cancelled));
    assert_eq!(url, "https://m.126.net/a");
    let (url, referer) = resolve::prepare_play_url("https://x.org/a.mp3", "", &mut c, 0, Ok(body.clone()));
    assert_eq!((url.as_str(), referer.as_str()), ("https://x.org/a.mp3", ""));
    let (url, referer) = resolve::prepare_play_url("http://m7.music.126.net/a", "https://r/", &mut c, 0, Ok(body));
    assert_eq!((url.as_str(), referer.as_str()), ("http://m7.music.126.net/a", "https://r/"));
}

#[test]
fn anonymous_addresses_name_their_song() {
    for id in ["1", "347230", "12345678901234567890"] {
        let url = netease::anonymous_media_url(id).unwrap();
        assert_eq!(resolve::outer_song_id(&url), Some(id.to_string()));
    }
}

#[test]
fn stale_addresses_are_resolved_once_more() {
    let mut c = UrlCache::empty();
    let body = "{\"url\":\"https://m.126.net/a\"}".to_string();
    assert!(resolve::fetch("1", Quality::Low, &mut c, 0, Ok(body)).is_ok());
    assert_eq!(resolve::on_status(&mut c, "1", 206, false), resolve::Recovery::Unrelated);
    assert_eq!(c.len(), 1);
    assert_eq!(resolve::on_status(&mut c, "1", 403, false), resolve::Recovery::Again);
    assert_eq!(c.len(), 0);
    assert!(matches!(resolve::resolve("1", Quality::Low, &c, 0), resolve::Lookup::Ask(_)));
    assert_eq!(resolve::on_status(&mut c, "1", 404, true), resolve::Recovery::GiveUp);
    assert_eq!(resolve::on_status(&mut c, "1", 410, true), resolve::Recovery::GiveUp);
}
