use yunyin::provider::netease::login;
use yunyin::provider::netease::login::Login;
use yunyin::provider::netease::login::Next;
use yunyin::provider::ProviderError;

type Reply = Result<(String, String), ProviderError>;

fn reply(body: &str, cookie: &str) -> Reply {
    Ok((body.to_string(), cookie.to_string()))
}

fn lost() -> Reply {
    Err(ProviderError::Network("post -1".to_string()))
}

const KEY: &str = "{\"code\":200,\"unikey\":\"0123-ab_CD\"}";

#[test]
fn login_starts_idle() {
    let mut l = Login::fresh();
    assert_eq!(l.status_json(), "{\"phase\":\"idle\",\"hint\":\"未登录\",\"tex\":-1}");
    assert_eq!(l.api_cookie(), "os=pc");
    assert!(!l.is_loaded());
    l.load_saved("MUSIC_U=abc");
    assert!(l.is_loaded());
    assert_eq!(l.status_json(), "{\"phase\":\"ok\",\"hint\":\"已登录\",\"tex\":-1}");
    assert_eq!(l.api_cookie(), "os=pc; MUSIC_U=abc");
    l.load_saved("");
    assert_eq!(l.api_cookie(), "os=pc; MUSIC_U=abc");
    l.logout();
    assert_eq!(l.api_cookie(), "os=pc");
    assert_eq!(l.status_json(), "{\"phase\":\"idle\",\"hint\":\"未登录\",\"tex\":-1}");
}

#[test]
fn saved_cookies_are_checked() {
    for bad in ["", "os=pc", "MUSIC_U=a\0b"] {
        let mut l = Login::fresh();
        l.load_saved(bad);
        assert_eq!(l.api_cookie(), "os=pc");
    }
    let mut l = Login::fresh();
    l.load_saved(&format!("MUSIC_U={}", "x".repeat(4000)));
    assert_eq!(l.api_cookie(), "os=pc");
    let mut l = Login::fresh();
    l.load_saved("os=pc; MUSIC_U=1");
    assert_eq!(l.api_cookie(), "os=pc; MUSIC_U=1");
}

#[test]
fn cookies_join_by_name() {
    assert_eq!(login::join_cookie("os=pc", "a=1; Path=/; os=linux"), "os=pc; a=1; Path=/");
    assert_eq!(login::join_cookie("", " a=1 ;; =x; a=2"), "a=1");
    assert_eq!(login::join_cookie("ab=1", "a=2"), "ab=1; a=2");
    let long = "a".repeat(4000);
    assert_eq!(login::clip_cookie(&long).len(), 3800);
    assert_eq!(login::clip_cookie("  x  "), "x");
    assert!(login::can_clip(&long));
    assert!(!login::can_clip(&format!("{}云", "a".repeat(3799))));
    let mut l = Login::fresh();
    let gen = l.start();
    let key = "{\"code\":200,\"unikey\":\"k-1\"}".to_string();
    let cut = format!("a={}云", "b".repeat(3799 - 9));
    assert!(login::can_take_key(&l, gen, &Ok((key.clone(), "a=1".to_string()))));
    assert!(!login::can_take_key(&l, gen, &Ok((key.clone(), cut.clone()))));
    assert!(login::can_take_key(&l, gen, &Ok(("{\"code\":400}".to_string(), cut.clone()))));
    assert!(login::can_take_key(&l, gen + 1, &Ok((key, cut))));
}

#[test]
fn login_cookie_comes_from_the_first_place_that_has_it() {
    let body = "{\"cookie\":\"MUSIC_U=body\"}";
    assert_eq!(login::pick_cookie(body, "MUSIC_U=head", "MUSIC_U=jar"), "MUSIC_U=body");
    assert_eq!(login::pick_cookie("{}", "MUSIC_U=head", "MUSIC_U=jar"), "MUSIC_U=head");
    assert_eq!(login::pick_cookie("{}", "x", "MUSIC_U=jar"), "MUSIC_U=jar");
    assert_eq!(login::pick_cookie("{}", "x", "y"), "");
}

#[test]
fn keys_are_short_and_plain() {
    assert!(login::key_ok("0123-ab_CD"));
    assert!(!login::key_ok(""));
    assert!(!login::key_ok("a b"));
    assert!(login::key_ok(&"k".repeat(64)));
    assert!(!login::key_ok(&"k".repeat(65)));
    assert_eq!(login::clip_chars("云音乐", 2), "云音");
}

#[test]
fn a_whole_login() {
    let mut ui = pocketjs_core::Ui::new();
    let mut l = Login::fresh();
    let gen = l.start();
    assert_eq!(l.status_json(), "{\"phase\":\"wait\",\"hint\":\"正在获取二维码\",\"tex\":-1}");
    assert_eq!((l.phase(), l.hint(), l.has_picture()), (login::Phase::Wait, "正在获取二维码", false));
    assert_eq!((login::read_code("{\"code\":-462}"), login::read_code("{}")), (-462, 0));
    let mut p = login::on_key(&mut l, gen, &reply(KEY, "NMTID=1; Path=/")).unwrap();
    assert_eq!(p.poll_json(), "{\"key\":\"0123-ab_CD\",\"type\":1,\"csrf_token\":\"\"}");
    assert_eq!(p.jar(), "os=pc; NMTID=1; Path=/");
    assert_eq!(p.gen(), gen);
    let (json, handle) = l.state_json(&mut ui);
    assert_eq!(json, "{\"phase\":\"wait\",\"hint\":\"请用网易云扫码\",\"tex\":0}");
    assert_eq!(handle, 0);
    let view = ui.texture(handle).unwrap();
    assert_eq!((view.w, view.h), (256, 256));
    assert_eq!(view.pixels.len(), 262144);
    assert_eq!(l.state_json(&mut ui).1, -1);
    assert!(matches!(p.on_poll(&mut l, &reply("{\"code\":801}", "")), Next::Again));
    assert!(matches!(p.on_poll(&mut l, &reply("{\"code\":802}", "")), Next::Again));
    assert_eq!(l.status_json(), "{\"phase\":\"scanned\",\"hint\":\"已扫码，请在手机确认\",\"tex\":0}");
    assert!(p.can_take_reply("{\"code\":803}", "MUSIC_U=tok"));
    match p.on_poll(&mut l, &reply("{\"code\":803}", "MUSIC_U=tok")) {
        Next::Keep(c) => assert_eq!(c, "MUSIC_U=tok"),
        _ => panic!("not kept"),
    }
    assert_eq!(l.api_cookie(), "os=pc; MUSIC_U=tok");
    assert_eq!(l.status_json(), "{\"phase\":\"ok\",\"hint\":\"登录成功\",\"tex\":0}");
}

#[test]
fn key_replies_can_refuse() {
    for (r, hint) in [
        (lost(), "网络失败"),
        (reply("{\"code\":400}", ""), "拿不到二维码"),
        (reply("{\"code\":400,\"message\":\"慢点\"}", ""), "慢点"),
        (reply("{\"code\":200}", ""), "没有二维码"),
        (reply("{\"code\":200,\"unikey\":\"a b\"}", ""), "二维码无效"),
    ] {
        let mut l = Login::fresh();
        let gen = l.start();
        assert!(login::on_key(&mut l, gen, &r).is_none());
        assert_eq!(l.status_json(), format!("{{\"phase\":\"fail\",\"hint\":\"{}\",\"tex\":-1}}", hint));
    }
}

#[test]
fn polls_can_end_badly() {
    for (r, phase, hint) in [
        (reply("{\"code\":800}", ""), "expired", "二维码已过期"),
        (reply("{\"code\":803}", ""), "fail", "登录没有账号信息"),
        (reply("{\"code\":8821}", ""), "fail", "登录失败"),
        (reply("{\"code\":502,\"message\":\"no\"}", ""), "fail", "no"),
    ] {
        let mut l = Login::fresh();
        let gen = l.start();
        let mut p = login::on_key(&mut l, gen, &reply(KEY, "")).unwrap();
        assert!(matches!(p.on_poll(&mut l, &r), Next::Stop));
        assert_eq!(
            l.status_json(),
            format!("{{\"phase\":\"{}\",\"hint\":\"{}\",\"tex\":-1}}", phase, hint)
        );
    }
}

#[test]
fn four_misses_in_a_row_end_it() {
    let mut l = Login::fresh();
    let gen = l.start();
    let mut p = login::on_key(&mut l, gen, &reply(KEY, "")).unwrap();
    for _ in 0..3 {
        assert!(matches!(p.on_poll(&mut l, &lost()), Next::Again));
    }
    assert!(matches!(p.on_poll(&mut l, &reply("{\"code\":801}", "")), Next::Again));
    for _ in 0..3 {
        assert!(matches!(p.on_poll(&mut l, &lost()), Next::Again));
    }
    assert!(matches!(p.on_poll(&mut l, &lost()), Next::Stop));
    assert_eq!(l.status_json(), "{\"phase\":\"fail\",\"hint\":\"轮询失败\",\"tex\":-1}");
}

#[test]
fn fifty_questions_are_enough() {
    let mut l = Login::fresh();
    let gen = l.start();
    let mut p = login::on_key(&mut l, gen, &reply(KEY, "")).unwrap();
    for _ in 0..49 {
        assert!(matches!(p.on_poll(&mut l, &reply("{\"code\":801}", "")), Next::Again));
    }
    assert!(matches!(p.on_poll(&mut l, &reply("{\"code\":801}", "")), Next::Stop));
    assert_eq!(l.status_json(), "{\"phase\":\"expired\",\"hint\":\"二维码已过期\",\"tex\":-1}");
}

#[test]
fn stale_dialogues_are_silent() {
    let mut l = Login::fresh();
    let first = l.start();
    let mut p = login::on_key(&mut l, first, &reply(KEY, "")).unwrap();
    let second = l.start();
    assert!(!l.alive(first) && l.alive(second));
    let before = l.status_json();
    assert!(matches!(p.on_poll(&mut l, &reply("{\"code\":803}", "MUSIC_U=x")), Next::Stop));
    assert!(login::on_key(&mut l, first, &reply(KEY, "")).is_none());
    l.start_failed(first);
    assert_eq!(l.status_json(), before);
    assert_eq!(l.api_cookie(), "os=pc");
    l.start_failed(second);
    assert_eq!(l.status_json(), "{\"phase\":\"fail\",\"hint\":\"登录线程失败\",\"tex\":-1}");
}

#[test]
fn pictures_of_another_size_are_refused() {
    let mut ui = pocketjs_core::Ui::new();
    assert_eq!(login::upload_qr(&mut ui, &[0u8; 16]), -1);
    assert_eq!(login::upload_qr(&mut ui, &vec![9u8; 262144]), 0);
    assert_eq!(ui.texture(0).unwrap().pixels[7], 9);
}
