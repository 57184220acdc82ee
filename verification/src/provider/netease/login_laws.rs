//! What a login does, over the replies of the server and the cookies in them.

use vstd::prelude::*;
use crate::json;
use crate::provider::Failure;
use crate::provider::netease::answer;
use crate::provider::netease::laws;
use crate::provider::netease::login;
use crate::provider::netease::login::LoginView;
use crate::provider::netease::login::NextView;
use crate::provider::netease::login::Phase;
use crate::provider::netease::login::PollingView;
use crate::text;
use crate::text_laws;

verus! {

// -------------------------------------------------------------------- cookies

/// A cookie by its name and value.
pub open spec fn is_cookie(c: (Seq<char>, Seq<char>)) -> bool {
    &&& c.0.len() > 0
    &&& forall|i: int| 0 <= i < c.0.len() ==> #[trigger] c.0[i] != '=' && c.0[i] != ';'
    &&& forall|i: int| 0 <= i < c.1.len() ==> #[trigger] c.1[i] != ';'
    &&& text::has_inked_ends(cookie_text(c))
}

/// `name=value`
pub open spec fn cookie_text(c: (Seq<char>, Seq<char>)) -> Seq<char> {
    c.0 + seq!['='] + c.1
}

pub open spec fn are_cookies(cs: Seq<(Seq<char>, Seq<char>)>) -> bool {
    forall|i: int| 0 <= i < cs.len() ==> is_cookie(#[trigger] cs[i])
}

/// No name stands twice.
pub open spec fn names_differ(cs: Seq<(Seq<char>, Seq<char>)>) -> bool {
    forall|i: int, j: int| 0 <= i < j < cs.len() ==> (#[trigger] cs[i]).0 != (#[trigger] cs[j]).0
}

/// `name=value; name=value`
pub open spec fn jar_text(cs: Seq<(Seq<char>, Seq<char>)>) -> Seq<char>
    decreases cs.len(),
{
    if cs.len() == 0 {
        Seq::empty()
    } else if cs.len() == 1 {
        cookie_text(cs[0])
    } else {
        jar_text(cs.drop_last()) + seq![';', ' '] + cookie_text(cs.last())
    }
}

/// The pieces of a jar between its semicolons.
spec fn jar_pieces(cs: Seq<(Seq<char>, Seq<char>)>) -> Seq<Seq<char>> {
    Seq::new(
        cs.len(),
        |i: int|
            if i == 0 {
                cookie_text(cs[0])
            } else {
                seq![' '] + cookie_text(cs[i])
            },
    )
}

proof fn lemma_cookie_plain(c: (Seq<char>, Seq<char>))
    requires
        is_cookie(c),
    ensures
        forall|i: int| 0 <= i < cookie_text(c).len() ==> #[trigger] cookie_text(c)[i] != ';',
        text::trimmed(cookie_text(c)) == cookie_text(c),
        text::trimmed(seq![' '] + cookie_text(c)) == cookie_text(c),
        login::cookie_name(cookie_text(c)) == c.0,
{
    let t = cookie_text(c);
    assert forall|i: int| 0 <= i < t.len() implies #[trigger] t[i] != ';' by {
        if i < c.0.len() {
            assert(t[i] == c.0[i]);
        } else if i > c.0.len() {
            assert(t[i] == c.1[i - c.0.len() - 1]);
        }
    }
    text::law_trimmed_is_the_text(seq![' '], t, Seq::empty());
    assert(seq![' '] + t + Seq::<char>::empty() =~= seq![' '] + t);
    lemma_first_piece(c.0, c.1);
}

proof fn lemma_first_piece(name: Seq<char>, value: Seq<char>)
    requires
        forall|i: int| 0 <= i < name.len() ==> #[trigger] name[i] != '=',
    ensures
        text::split_on(name + seq!['='] + value, '=').len() >= 2,
        text::split_on(name + seq!['='] + value, '=')[0] == name,
    decreases value.len(),
{
    let s = name + seq!['='] + value;
    if value.len() == 0 {
        assert(s =~= name + seq!['=']);
        text_laws::lemma_split_end(name, '=');
        text_laws::lemma_split_append(Seq::empty(), name, '=');
        assert(Seq::<char>::empty() + name =~= name);
        let none = text::split_on(Seq::<char>::empty(), '=');
        assert(none =~= seq![Seq::<char>::empty()]);
        assert(none.drop_last() =~= Seq::empty());
    } else {
        lemma_first_piece(name, value.drop_last());
        assert(s.drop_last() =~= name + seq!['='] + value.drop_last());
    }
}

proof fn lemma_jar_splits(cs: Seq<(Seq<char>, Seq<char>)>)
    requires
        are_cookies(cs),
        cs.len() > 0,
    ensures
        text::split_on(jar_text(cs), ';') == jar_pieces(cs),
        text::has_inked_ends(jar_text(cs)),
    decreases cs.len(),
{
    let last = cs[cs.len() - 1];
    assert(is_cookie(last));
    lemma_cookie_plain(last);
    if cs.len() == 1 {
        text_laws::lemma_split_append(Seq::empty(), cookie_text(last), ';');
        let none = text::split_on(Seq::<char>::empty(), ';');
        assert(none =~= seq![Seq::<char>::empty()]);
        assert(none.drop_last() =~= Seq::empty());
        assert(Seq::<char>::empty() + cookie_text(last) =~= cookie_text(last));
        assert(text::split_on(jar_text(cs), ';') =~= jar_pieces(cs));
    } else {
        let front = jar_text(cs.drop_last());
        assert(are_cookies(cs.drop_last()));
        lemma_jar_splits(cs.drop_last());
        let tail = seq![' '] + cookie_text(last);
        text_laws::lemma_split_end(front, ';');
        let before = front + seq![';'];
        text_laws::lemma_split_append(before, tail, ';');
        assert(jar_text(cs) =~= before + tail);
        let cut = text::split_on(before, ';');
        assert(cut.drop_last() =~= jar_pieces(cs.drop_last()));
        assert(cut.last() + tail =~= tail);
        assert(text::split_on(jar_text(cs), ';') =~= jar_pieces(cs));
        assert(jar_text(cs).first() == front.first());
        assert(jar_text(cs).last() == cookie_text(last).last());
    }
}

proof fn lemma_name_is_met(c: (Seq<char>, Seq<char>), name: Seq<char>)
    requires
        is_cookie(c),
        forall|i: int| 0 <= i < name.len() ==> #[trigger] name[i] != '=',
    ensures
        (cookie_text(c) == name || text::begins(cookie_text(c), name + seq!['='])) <==> c.0 == name,
{
    let t = cookie_text(c);
    let n = c.0.len() as int;
    assert(t[n] == '=');
    if t == name {
        assert(name[n] != '=');
    }
    let pat = name + seq!['='];
    if c.0 == name {
        assert(t.subrange(0, n + 1) =~= pat);
    }
    if text::begins(t, pat) {
        let k = name.len() as int;
        assert(t.subrange(0, k + 1) == pat);
        assert(t[k] == '=') by {
            assert(t.subrange(0, k + 1)[k] == pat[k]);
        }
        if k < n {
            assert(t[k] == c.0[k]);
        } else if n < k {
            assert(t.subrange(0, k + 1)[n] == pat[n]);
            assert(pat[n] == name[n]);
        }
        assert(c.0 =~= name) by {
            assert forall|i: int| 0 <= i < n implies c.0[i] == name[i] by {
                assert(t.subrange(0, k + 1)[i] == pat[i]);
            }
        }
    }
}

/// A jar holds the names of its cookies, and no others.
pub proof fn law_jar_has_its_names(cs: Seq<(Seq<char>, Seq<char>)>, name: Seq<char>)
    requires
        are_cookies(cs),
        cs.len() > 0,
        forall|i: int| 0 <= i < name.len() ==> #[trigger] name[i] != '=',
    ensures
        login::has_cookie(text::split_on(jar_text(cs), ';'), name) <==> exists|i: int|
            0 <= i < cs.len() && (#[trigger] cs[i]).0 == name,
{
    lemma_jar_splits(cs);
    let parts = jar_pieces(cs);
    assert forall|i: int| 0 <= i < cs.len() implies text::trimmed(#[trigger] parts[i])
        == cookie_text(cs[i]) by {
        lemma_cookie_plain(cs[i]);
    }
    if login::has_cookie(parts, name) {
        let k = choose|k: int|
            0 <= k < parts.len() && {
                let p = text::trimmed(#[trigger] parts[k]);
                p == name || text::begins(p, name + seq!['='])
            };
        lemma_name_is_met(cs[k], name);
    }
    if exists|i: int| 0 <= i < cs.len() && (#[trigger] cs[i]).0 == name {
        let i = choose|i: int| 0 <= i < cs.len() && (#[trigger] cs[i]).0 == name;
        lemma_name_is_met(cs[i], name);
        assert(text::trimmed(parts[i]) == cookie_text(cs[i]));
    }
}

/// A cookie with a new name stands at the end of the jar; one whose name is
/// there changes nothing.
pub proof fn law_cookie_is_added_once(
    cs: Seq<(Seq<char>, Seq<char>)>,
    c: (Seq<char>, Seq<char>),
    before: Seq<char>,
    after: Seq<char>,
)
    requires
        are_cookies(cs),
        is_cookie(c),
        text::is_blank(before),
        text::is_blank(after),
    ensures
        login::with_cookie(jar_text(cs), before + cookie_text(c) + after) == (if exists|i: int|
            0 <= i < cs.len() && (#[trigger] cs[i]).0 == c.0 {
            jar_text(cs)
        } else {
            jar_text(cs.push(c))
        }),
{
    lemma_cookie_plain(c);
    text::law_trimmed_is_the_text(before, cookie_text(c), after);
    let all = cs.push(c);
    assert(all.drop_last() =~= cs);
    reveal_strlit("; ");
    assert("; "@ =~= seq![';', ' ']);
    if cs.len() == 0 {
        let none = text::split_on(Seq::<char>::empty(), ';');
        assert(none =~= seq![Seq::<char>::empty()]);
        assert(text::trimmed(none[0]) =~= Seq::<char>::empty()) by {
            text::law_trimmed_is_the_text(Seq::empty(), cookie_text(c), Seq::empty());
        }
        assert(!login::has_cookie(none, c.0)) by {
            assert forall|k: int| 0 <= k < none.len() implies ({
                let p = text::trimmed(#[trigger] none[k]);
                !(p == c.0 || text::begins(p, c.0 + seq!['=']))
            }) by {
                assert(k == 0);
            }
        }
    } else {
        law_jar_has_its_names(cs, c.0);
        lemma_jar_splits(cs);
    }
}

/// Joining two jars whose names all differ keeps every cookie, in order.
pub proof fn law_jars_join(a: Seq<(Seq<char>, Seq<char>)>, b: Seq<(Seq<char>, Seq<char>)>)
    requires
        are_cookies(a),
        are_cookies(b),
        names_differ(a + b),
        b.len() > 0,
    ensures
        login::joined(jar_text(a), jar_text(b)) == jar_text(a + b),
{
    lemma_jar_splits(b);
    if a.len() > 0 {
        lemma_jar_splits(a);
        text::law_trimmed_is_the_text(Seq::empty(), jar_text(a), Seq::empty());
    } else {
        text::law_trimmed_is_the_text(Seq::empty(), jar_text(b), Seq::empty());
    }
    lemma_cookies_join(a, b);
}

proof fn lemma_cookies_join(a: Seq<(Seq<char>, Seq<char>)>, b: Seq<(Seq<char>, Seq<char>)>)
    requires
        are_cookies(a),
        are_cookies(b),
        names_differ(a + b),
    ensures
        login::with_cookies(jar_text(a), jar_pieces(b)) == jar_text(a + b),
    decreases b.len(),
{
    if b.len() == 0 {
        assert(a + b =~= a);
    } else {
        let front = b.drop_last();
        let all = a + front;
        let last = b[b.len() - 1];
        assert(is_cookie(last));
        assert((a + b) =~= all.push(last));
        assert(names_differ(all)) by {
            assert forall|i: int, j: int| 0 <= i < j < all.len() implies (#[trigger] all[i]).0 != (
            #[trigger] all[j]).0 by {
                assert((a + b)[i] == all[i] && (a + b)[j] == all[j]);
            }
        }
        assert(are_cookies(front));
        lemma_cookies_join(a, front);
        assert(jar_pieces(b).drop_last() =~= jar_pieces(front));
        assert(are_cookies(all)) by {
            assert forall|i: int| 0 <= i < all.len() implies is_cookie(#[trigger] all[i]) by {
                if i < a.len() {
                    assert(all[i] == a[i]);
                } else {
                    assert(all[i] == b[i - a.len()]);
                }
            }
        }
        assert forall|i: int| 0 <= i < all.len() implies (#[trigger] all[i]).0 != last.0 by {
            assert((a + b)[i] == all[i]);
            assert((a + b)[all.len() as int] == last);
        }
        let space = if b.len() == 1 {
            Seq::<char>::empty()
        } else {
            seq![' ']
        };
        law_cookie_is_added_once(all, last, space, Seq::empty());
        assert(space + cookie_text(last) + Seq::<char>::empty() =~= jar_pieces(b).last());
    }
}

/// A cookie is cut at its limit: what is left is the front of its bytes, all of
/// them where they fit.
pub proof fn law_cookie_is_cut(s: Seq<char>)
    requires
        login::clippable(s),
    ensures
        ({
            let all = vstd::utf8::encode_utf8(text::trimmed(s));
            let left = vstd::utf8::encode_utf8(login::clipped(s));
            &&& left.len() == (if all.len() <= 3800 {
                all.len() as int
            } else {
                3800
            })
            &&& left == all.take(left.len() as int)
            &&& all.len() <= 3800 ==> login::clipped(s) == text::trimmed(s)
        }),
{
    let t = text::trimmed(s);
    let all = vstd::utf8::encode_utf8(t);
    if all.len() <= 3800 {
        assert(all.take(all.len() as int) =~= all);
    } else {
        vstd::utf8::encode_utf8_valid_utf8(t);
        vstd::utf8::valid_utf8_split(all, 3800);
        assert(all.subrange(0, 3800) =~= all.take(3800));
        vstd::utf8::decode_utf8_encode_utf8(all.take(3800));
    }
}

/// The login is taken from the answer where the answer names an account, from
/// the header where only that does, and from the jar after them.
pub proof fn law_login_is_looked_for_in_order(
    body: Seq<char>,
    front: Seq<char>,
    back: Seq<char>,
    other: Seq<char>,
    jar: Seq<char>,
)
    ensures
        ({
            let account = front + "MUSIC_U"@ + back;
            &&& laws::says_text(body, "cookie"@, account) ==> login::login_source(body, other, jar)
                == account
            &&& !text::occurs(body, laws::text_mark("cookie"@)) ==> login::login_source(
                body,
                account,
                jar,
            ) == account
            &&& !text::occurs(body, laws::text_mark("cookie"@)) && !text::occurs(
                other,
                "MUSIC_U"@,
            ) ==> login::login_source(body, other, account) == account
            &&& !text::occurs(body, laws::text_mark("cookie"@)) && !text::occurs(
                other,
                "MUSIC_U"@,
            ) && !text::occurs(jar, "MUSIC_U"@) ==> login::login_source(body, other, jar)
                == Seq::<char>::empty()
        }),
{
    let account = front + "MUSIC_U"@ + back;
    let n = front.len() as int;
    reveal_strlit("MUSIC_U");
    assert(account.subrange(n, n + "MUSIC_U"@.len()) =~= "MUSIC_U"@);
    assert(text::occurs_at(account, "MUSIC_U"@, n));
    laws::law_missing_is_missing(body, "cookie"@);
    if laws::says_text(body, "cookie"@, account) {
        laws::law_text_is_read(body, "cookie"@, account);
    }
}

/// Clipping keeps the first characters, as many as are asked for.
pub proof fn law_first_characters(s: Seq<char>, n: nat)
    ensures
        login::first_chars(s, n).len() <= n,
        login::first_chars(s, n).len() == n || login::first_chars(s, n) == s,
        forall|i: int|
            0 <= i < login::first_chars(s, n).len() ==> #[trigger] login::first_chars(s, n)[i]
                == s[i],
{
}

/// A key is of at most 64 letters, digits, dashes and underscores.
pub proof fn law_keys(s: Seq<char>)
    ensures
        login::is_key(s) <==> 1 <= s.len() <= 64 && forall|i: int|
            0 <= i < s.len() ==> {
                let c = #[trigger] s[i];
                48 <= c <= 57 || 65 <= c <= 90 || 97 <= c <= 122 || c == 45 || c == 95
            },
{
}

// ---------------------------------------------------------------------- state

/// Every phase has its own name.
pub proof fn law_phase_names()
    ensures
        login::phase_name(Phase::Idle) == "idle"@,
        login::phase_name(Phase::Wait) == "wait"@,
        login::phase_name(Phase::Scanned) == "scanned"@,
        login::phase_name(Phase::Expired) == "expired"@,
        login::phase_name(Phase::LoggedIn) == "ok"@,
        login::phase_name(Phase::Fail) == "fail"@,
{
}

/// What is sent holds the cookie of the login, and claims a desktop client.
pub proof fn law_desktop_is_claimed(v: LoginView, front: Seq<char>, back: Seq<char>)
    ensures
        text::occurs(v.cookie_to_send(), "os=pc"@),
        v.cookie.len() > 0 ==> v.cookie_to_send() == v.cookie || v.cookie_to_send() == "os=pc; "@
            + v.cookie,
        v.cookie == front + "os=pc"@ + back ==> v.cookie_to_send() == v.cookie,
        v.cookie.len() == 0 ==> v.cookie_to_send() == "os=pc"@,
{
    reveal_strlit("os=pc");
    reveal_strlit("os=pc; ");
    let sent = v.cookie_to_send();
    if v.cookie.len() > 0 && !text::occurs(v.cookie, "os=pc"@) {
        assert(sent.subrange(0, 5) =~= "os=pc"@);
        assert(text::occurs_at(sent, "os=pc"@, 0));
    } else if v.cookie.len() == 0 {
        assert(sent.subrange(0, 5) =~= "os=pc"@);
        assert(text::occurs_at(sent, "os=pc"@, 0));
    }
    if v.cookie == front + "os=pc"@ + back {
        let n = front.len() as int;
        assert(v.cookie.subrange(n, n + 5) =~= "os=pc"@);
        assert(text::occurs_at(v.cookie, "os=pc"@, n));
    }
}

/// A kept cookie that names an account logs in; the first look counts, a later
/// one does not, and another cookie logs nobody in.
pub proof fn law_kept_cookie_logs_in(
    v: LoginView,
    saved: Seq<char>,
    front: Seq<char>,
    back: Seq<char>,
    again: Seq<char>,
)
    requires
        !v.loaded,
    ensures
        ({
            let after = v.with_saved(saved);
            let usable = vstd::utf8::encode_utf8(saved).len() < 4000 && forall|i: int|
                0 <= i < saved.len() ==> #[trigger] saved[i] != '\0';
            &&& after.loaded
            &&& after.with_saved(again) == after
            &&& saved == front + "MUSIC_U"@ + back && usable ==> after.phase == Phase::LoggedIn
                && after.cookie == saved && after.hint == "已登录"@
            &&& !text::occurs(saved, "MUSIC_U"@) || !usable ==> after.phase == Phase::Idle
                && after.cookie == v.cookie && after.hint == "未登录"@
        }),
{
    reveal_strlit("MUSIC_U");
    if saved == front + "MUSIC_U"@ + back {
        let n = front.len() as int;
        assert(saved.subrange(n, n + "MUSIC_U"@.len()) =~= "MUSIC_U"@);
        assert(text::occurs_at(saved, "MUSIC_U"@, n));
    }
    let after = v.with_saved(saved);
    assert(after.with_saved(again) == after);
    let zero = seq!['\0'];
    if text::has_zero(saved) {
        let at = choose|at: int| #[trigger] text::occurs_at(saved, zero, at);
        assert(saved.subrange(at, at + 1)[0] == saved[at]);
    }
    if exists|i: int| 0 <= i < saved.len() && #[trigger] saved[i] == '\0' {
        let i = choose|i: int| 0 <= i < saved.len() && #[trigger] saved[i] == '\0';
        assert(saved.subrange(i, i + 1) =~= zero);
        assert(text::occurs_at(saved, zero, i));
    }
}

/// Starting and logging out show what they do, drop the picture, and count on.
pub proof fn law_start_and_logout(v: LoginView)
    ensures
        v.started().phase == Phase::Wait,
        v.started().cookie == v.cookie,
        v.started().pending is None,
        v.started().tex == -1,
        v.started().hint == "正在获取二维码"@,
        v.logged_out().phase == Phase::Idle,
        v.logged_out().cookie.len() == 0,
        v.logged_out().pending is None,
        v.logged_out().tex == -1,
        v.logged_out().hint == "未登录"@,
        v.gen < u32::MAX ==> v.started().gen == v.gen + 1 && v.logged_out().gen == v.gen + 1,
        v.gen == u32::MAX ==> v.started().gen == 0 && v.logged_out().gen == 0,
        LoginView::fresh().phase == Phase::Idle,
        LoginView::fresh().cookie.len() == 0,
        !LoginView::fresh().loaded,
        LoginView::fresh().pending is None,
        LoginView::fresh().tex == -1,
{
}

/// The screen sees the phase, the first characters of the hint, and the picture.
pub proof fn law_status_shows_the_phase(v: LoginView)
    requires
        v.hint.len() <= 24,
    ensures
        v.status() == "{\"phase\":\""@ + login::phase_name(v.phase) + "\",\"hint\":\""@
            + json::escaped(v.hint, true) + "\",\"tex\":"@ + text::int_text(v.tex as int) + "}"@,
{
}

// ------------------------------------------------------------------- dialogue

/// A reply with the code 200 and a key shows the code of that key's address and
/// begins to ask.
pub proof fn law_key_reply_shows_its_code(
    v: LoginView,
    body: Seq<char>,
    set_cookie: Seq<char>,
    key: Seq<char>,
)
    requires
        laws::says_number(body, "code"@, text::dec_text(200)),
        laws::says_text(body, "unikey"@, key),
        login::is_key(key),
    ensures
        ({
            let reply = Ok::<(Seq<char>, Seq<char>), Failure>((body, set_cookie));
            let after = login::after_key(v, v.gen, reply);
            let asking = login::polling_of(v, v.gen, reply);
            let url = vstd::utf8::encode_utf8("https://music.163.com/login?codekey="@ + key);
            &&& after.phase == Phase::Wait
            &&& after.hint == "请用网易云扫码"@
            &&& after.cookie == v.cookie
            &&& after.gen == v.gen
            &&& after.pending is Some
            &&& after.pending == login_code(url)
            &&& asking is Some
            &&& asking->0.key == key
            &&& asking->0.gen == v.gen
            &&& asking->0.rounds == 0
            &&& asking->0.misses == 0
            &&& asking->0.question() == "{\"key\":\""@ + key + "\",\"type\":1,\"csrf_token\":\"\"}"@
        }),
{
    laws::law_number_is_read(body, "code"@, 200);
    laws::law_text_is_read(body, "unikey"@, key);
    login::law_key_fits_code(key);
}

/// The picture of a code that carries these bytes.
pub open spec fn login_code(data: Seq<u8>) -> Option<Seq<u8>> {
    match crate::provider::netease::qr::picked_from(data.len(), 1) {
        Some(ver) => Some(
            crate::provider::netease::qr::picture_of(
                crate::provider::netease::qr::matrix_of(data, ver),
                ver.size as int,
            ),
        ),
        None => None,
    }
}

/// Any other reply to the request for a key ends the dialogue as failed.
pub proof fn law_refused_key_fails(
    v: LoginView,
    body: Seq<char>,
    set_cookie: Seq<char>,
    code: nat,
    key: Seq<char>,
    f: Failure,
)
    requires
        laws::says_number(body, "code"@, text::dec_text(code)),
        code <= 0x7fff_ffff,
        code != 200 || !text::occurs(body, laws::text_mark("unikey"@)) || (laws::says_text(
            body,
            "unikey"@,
            key,
        ) && key.len() > 64),
    ensures
        ({
            let reply = Ok::<(Seq<char>, Seq<char>), Failure>((body, set_cookie));
            &&& login::after_key(v, v.gen, reply).phase == Phase::Fail
            &&& login::polling_of(v, v.gen, reply) is None
        }),
        login::after_key(v, v.gen, Err(f)).phase == Phase::Fail,
        login::polling_of(v, v.gen, Err(f)) is None,
{
    laws::law_number_is_read(body, "code"@, code);
    laws::law_missing_is_missing(body, "unikey"@);
    if laws::says_text(body, "unikey"@, key) && key.len() > 64 {
        laws::law_text_is_read(body, "unikey"@, key);
    }
}

/// What the server's code says of the login: 801 nothing new, 802 scanned, 800
/// expired, and any other but 803 failed. The fiftieth question is the last.
pub proof fn law_codes_of_the_server(
    p: PollingView,
    v: LoginView,
    body: Seq<char>,
    more: Seq<char>,
    code: nat,
)
    requires
        laws::says_number(body, "code"@, text::dec_text(code)),
        code <= 0x7fff_ffff,
        code != 803,
        p.gen == v.gen,
        p.rounds < 50,
    ensures
        ({
            let reply = Ok::<(Seq<char>, Seq<char>), Failure>((body, more));
            let after = p.login_after(v, reply);
            let next = p.next(v, reply);
            &&& after.cookie == v.cookie
            &&& after.gen == v.gen
            &&& code == 801 && p.rounds < 49 ==> after == v && next is Again
            &&& code == 802 && p.rounds < 49 ==> after.phase == Phase::Scanned && after.hint
                == "已扫码，请在手机确认"@ && next is Again
            &&& (code == 801 || code == 802) && p.rounds == 49 ==> after.phase == Phase::Expired
                && next is Stop
            &&& code == 800 ==> after.phase == Phase::Expired && after.hint == "二维码已过期"@
                && next is Stop
            &&& !(code == 800 || code == 801 || code == 802) ==> after.phase == Phase::Fail && next
                is Stop
        }),
{
    laws::law_number_is_read(body, "code"@, code);
}

/// A confirmed login keeps the cookie that names the account.
pub proof fn law_confirmed_login_is_kept(
    p: PollingView,
    v: LoginView,
    body: Seq<char>,
    more: Seq<char>,
    account: Seq<char>,
)
    requires
        laws::says_number(body, "code"@, text::dec_text(803)),
        laws::says_text(body, "cookie"@, account),
        text::has_inked_ends(account),
        text::occurs(account, "MUSIC_U"@),
        vstd::utf8::encode_utf8(account).len() <= 3800,
        p.gen == v.gen,
    ensures
        ({
            let reply = Ok::<(Seq<char>, Seq<char>), Failure>((body, more));
            let after = p.login_after(v, reply);
            &&& after.phase == Phase::LoggedIn
            &&& after.cookie == account
            &&& after.hint == "登录成功"@
            &&& after.gen == v.gen
            &&& p.next(v, reply) matches NextView::Keep(c) && c == account
        }),
{
    laws::law_number_is_read(body, "code"@, 803);
    laws::law_text_is_read(body, "cookie"@, account);
    text::law_trimmed_is_the_text(Seq::empty(), account, Seq::empty());
}

/// A question without an answer is a miss; the fourth in a row ends the dialogue,
/// and any answer makes the count begin again.
pub proof fn law_misses_are_counted(
    p: PollingView,
    v: LoginView,
    f: Failure,
    body: Seq<char>,
    more: Seq<char>,
)
    requires
        p.gen == v.gen,
        p.rounds < 50,
        p.misses < 4,
    ensures
        ({
            let missed = p.after(Err(f));
            &&& missed.misses == p.misses + 1
            &&& missed.rounds == p.rounds + 1
            &&& missed.jar == p.jar
            &&& missed.key == p.key
            &&& p.after(Ok((body, more))).misses == 0
            &&& p.after(Ok((body, more))).rounds == p.rounds + 1
            &&& p.after(Ok((body, more))).key == p.key
            &&& p.after(Ok((body, Seq::empty()))).jar == p.jar
            &&& p.misses == 3 ==> p.next(v, Err(f)) is Stop && p.login_after(v, Err(f)).phase
                == Phase::Fail
            &&& p.misses < 3 && p.rounds < 49 ==> p.next(v, Err(f)) is Again && p.login_after(
                v,
                Err(f),
            ) == v
            &&& p.misses < 3 && p.rounds == 49 ==> p.next(v, Err(f)) is Stop && p.login_after(
                v,
                Err(f),
            ).phase == Phase::Expired
        }),
{
}

/// The messages of the server are shown, cut to what the screen holds.
pub proof fn law_message_is_shown(
    p: PollingView,
    v: LoginView,
    body: Seq<char>,
    more: Seq<char>,
    code: nat,
    message: Seq<char>,
)
    requires
        laws::says_number(body, "code"@, text::dec_text(code)),
        code <= 0x7fff_ffff,
        !(800 <= code <= 803),
        laws::says_text(body, "message"@, message),
        0 < message.len() <= 24,
        p.gen == v.gen,
    ensures
        p.login_after(v, Ok((body, more))).hint == message,
        code != 200 ==> login::after_key(v, v.gen, Ok((body, more))).hint == message,
{
    laws::law_number_is_read(body, "code"@, code);
    laws::law_text_is_read(body, "message"@, message);
    assert(answer::string_of(body, "message"@) == Some(message));
}

} // verus!
