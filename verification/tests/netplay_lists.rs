use yunyin::source::netplay;
use yunyin::source::netplay::NetplayTrack;

fn shown(v: &[NetplayTrack]) -> Vec<(&str, &str, &str)> {
    v.iter().map(|t| (t.url.as_str(), t.referer.as_str(), t.title.as_str())).collect()
}

#[test]
fn blocks_of_up_to_three_lines() {
    let file = "# note\nhttps://a.org/1.mp3\nhttps://ref/\n第一首\nhttp://b.org/song?id=77&x\n\nftp://no\n\n http://m7.music.126.net/x \r\n";
    let v = netplay::parse_netplay(file);
    assert_eq!(
        shown(&v),
        vec![
            ("https://a.org/1.mp3", "https://ref/", "第一首"),
            ("http://b.org/song?id=77&x", "", "[在线] 77"),
            ("http://m7.music.126.net/x", "https://music.163.com/", "[在线] 网络歌曲"),
        ]
    );
    assert!(netplay::parse_netplay("").is_empty());
}

#[test]
fn identifiers_one_a_line() {
    let v = netplay::parse_netease_ids("347230\n\n# x\n1901371647  好  听\nabc\n123456789012345678901");
    assert_eq!(
        shown(&v),
        vec![
            (
                "https://music.163.com/song/media/outer/url?id=347230.mp3",
                "https://music.163.com/",
                "[在线] 347230"
            ),
            (
                "https://music.163.com/song/media/outer/url?id=1901371647.mp3",
                "https://music.163.com/",
                "好 听"
            ),
        ]
    );
}

#[test]
fn lists_are_merged_by_address() {
    let first = "https://music.163.com/song/media/outer/url?id=1.mp3\n\nhttp://x/\n";
    let v = netplay::netplay_tracks(Some(first), Some("1 again\n2\n2 twice"));
    let urls: Vec<&str> = v.iter().map(|t| t.url.as_str()).collect();
    assert_eq!(
        urls,
        vec![
            "https://music.163.com/song/media/outer/url?id=1.mp3",
            "http://x/",
            "https://music.163.com/song/media/outer/url?id=2.mp3",
        ]
    );
    assert_eq!(v[0].title, "[在线] 1");
    assert!(netplay::netplay_tracks(None, None).is_empty());
    assert_eq!(netplay::netplay_tracks(None, Some("5")).len(), 1);
}

#[test]
fn referers_come_from_the_list() {
    let v = netplay::netplay_tracks(Some("http://x/\nhttp://r/\n\nhttp://126.net/y"), None);
    assert_eq!(netplay::referer_for("http://x/", &v), "http://r/");
    assert_eq!(netplay::referer_for("http://126.net/y", &v), "https://music.163.com/");
    assert_eq!(netplay::referer_for("http://z/", &v), "");
    assert_eq!(netplay::default_referer("https://music.163.com/a"), "https://music.163.com/");
}

#[test]
fn the_screen_gets_json() {
    let v = netplay::netplay_tracks(Some("http://x/\nhttp://r/\na\"b"), Some("9"));
    assert_eq!(
        netplay::netplay_json(&v),
        "[{\"url\":\"http://x/\",\"title\":\"a\\\"b\",\"referer\":\"http://r/\"},{\"url\":\"https://music.163.com/song/media/outer/url?id=9.mp3\",\"title\":\"[在线] 9\",\"referer\":\"https://music.163.com/\"}]"
    );
    assert_eq!(netplay::netplay_json(&[]), "[]");
}
