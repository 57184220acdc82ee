//! What the server's answers and the player's questions come to, over answers
//! and addresses that are put together out of their parts.

use vstd::prelude::*;
use crate::provider;
use crate::provider::Audio;
use crate::provider::AudioFormat;
use crate::provider::Failure;
use crate::provider::Quality;
use crate::provider::netease::answer;
use crate::provider::netease::api;
use crate::provider::netease::api::Flavour;
use crate::provider::netease::resolve;
use crate::provider::netease::resolve::Entry;
use crate::provider::netease::resolve::LookupView;
use crate::tags::laws as tags_laws;
use crate::text;
use crate::text_laws;

verus! {

// ------------------------------------------------------------------- answers

/// The inside of a string: quotes and backslashes stand behind a backslash.
pub open spec fn quoted(value: Seq<char>) -> Seq<char>
    decreases value.len(),
{
    if value.len() == 0 {
        Seq::empty()
    } else if value[0] == '"' || value[0] == '\\' {
        seq!['\\', value[0]] + quoted(value.skip(1))
    } else {
        seq![value[0]] + quoted(value.skip(1))
    }
}

/// What stands in front of the string under a key.
pub open spec fn text_mark(key: Seq<char>) -> Seq<char> {
    seq!['"'] + key + seq!['"', ':', '"']
}

/// What stands in front of the number under a key.
pub open spec fn number_mark(key: Seq<char>) -> Seq<char> {
    seq!['"'] + key + seq!['"', ':']
}

/// `"key":"value"`
pub open spec fn string_field(key: Seq<char>, value: Seq<char>) -> Seq<char> {
    text_mark(key) + quoted(value) + seq!['"']
}

/// An answer holds a string under a key, and the key is not asked for earlier.
pub open spec fn says_text(body: Seq<char>, key: Seq<char>, value: Seq<char>) -> bool {
    exists|before: Seq<char>, behind: Seq<char>|
        body == #[trigger] (before + string_field(key, value) + behind) && forall|j: int|
            0 <= j < before.len() ==> !#[trigger] text::occurs_at(
                body,
                text_mark(key),
                j,
            )
}

/// An answer holds a number under a key, perhaps behind spaces, and the key is
/// not asked for earlier.
pub open spec fn says_number(body: Seq<char>, key: Seq<char>, digits: Seq<char>) -> bool {
    exists|before: Seq<char>, space: Seq<char>, behind: Seq<char>|
        body == #[trigger] (before + number_mark(key) + space + digits + behind)
            && text::is_blank(space) && (behind.len() > 0 ==> !(48 <= behind[0] as u32 <= 57))
            && forall|j: int|
            0 <= j < before.len() ==> !#[trigger] text::occurs_at(
                body,
                number_mark(key),
                j,
            )
}

proof fn lemma_string_body(value: Seq<char>, rest: Seq<char>)
    ensures
        answer::string_body(quoted(value) + (seq!['"'] + rest)) == value,
    decreases value.len(),
{
    let tail = seq!['"'] + rest;
    let s = quoted(value) + tail;
    if value.len() == 0 {
        assert(s =~= tail);
        assert(value =~= Seq::empty());
    } else {
        lemma_string_body(value.skip(1), rest);
        let more = quoted(value.skip(1)) + tail;
        if value[0] == '"' || value[0] == '\\' {
            assert(s[0] == '\\' && s[1] == value[0]);
            assert(s.skip(2) =~= more);
        } else {
            assert(s[0] == value[0]);
            assert(s.skip(1) =~= more);
        }
        assert(seq![value[0]] + value.skip(1) =~= value);
    }
}

proof fn lemma_behind_first(before: Seq<char>, pat: Seq<char>, rest: Seq<char>)
    requires
        forall|j: int|
            0 <= j < before.len() ==> !#[trigger] text::occurs_at(before + pat + rest, pat, j),
    ensures
        answer::behind(before + pat + rest, pat) == Some(rest),
{
    let s = before + pat + rest;
    let n = before.len() as int;
    assert(s.subrange(n, n + pat.len()) =~= pat);
    assert(text::occurs_at(s, pat, n));
    text::lemma_find_from(s, pat, 0);
    assert(s.skip(n + pat.len()) =~= rest);
}

/// The string that an answer holds under a key is what is read there.
pub proof fn law_text_is_read(body: Seq<char>, key: Seq<char>, value: Seq<char>)
    requires
        says_text(body, key, value),
        value.len() > 0,
    ensures
        answer::string_of(body, key) == Some(value),
{
    let (before, behind) = choose|before: Seq<char>, behind: Seq<char>|
        body == #[trigger] (before + string_field(key, value) + behind) && forall|j: int|
            0 <= j < before.len() ==> !#[trigger] text::occurs_at(
                body,
                text_mark(key),
                j,
            );
    let pat = text_mark(key);
    let rest = quoted(value) + (seq!['"'] + behind);
    assert(body =~= before + pat + rest);
    assert(pat == answer::string_pattern(key));
    lemma_behind_first(before, pat, rest);
    lemma_string_body(value, behind);
}

/// The number that an answer holds under a key is what is read there.
pub proof fn law_number_is_read(body: Seq<char>, key: Seq<char>, n: nat)
    ensures
        says_number(body, key, text::dec_text(n)) && n <= 0xffff_ffff_ffff_ffff ==> answer::u64_of(
            body,
            key,
        ) == Some(n),
        says_number(body, key, text::dec_text(n)) && n <= 0x7fff_ffff ==> answer::i32_of(body, key)
            == Some(n as int),
        says_number(body, key, seq!['-'] + text::dec_text(n)) && n <= 0x7fff_ffff ==> answer::i32_of(
            body,
            key,
        ) == Some(-(n as int)),
{
    let pat = number_mark(key);
    text_laws::law_decimal_reads_back(n, Seq::empty());
    assert(text::is_digit(text::dec_text(n)[0]));
    if says_number(body, key, text::dec_text(n)) {
        lemma_number_behind(body, key, text::dec_text(n));
        let behind = choose|behind: Seq<char>|
            text::trim_start(answer::behind(body, pat)->0) == #[trigger] (text::dec_text(n) + behind)
                && (behind.len() > 0 ==> !(48 <= behind[0] as u32 <= 57));
        text_laws::law_decimal_reads_back(n, behind);
        assert((text::dec_text(n) + behind)[0] == text::dec_text(n)[0]);
        assert(text::is_digit(text::dec_text(n)[0]));
    }
    if says_number(body, key, seq!['-'] + text::dec_text(n)) {
        let d = seq!['-'] + text::dec_text(n);
        lemma_number_behind(body, key, d);
        let behind = choose|behind: Seq<char>|
            text::trim_start(answer::behind(body, pat)->0) == #[trigger] (d + behind) && (behind.len()
                > 0 ==> !(48 <= behind[0] as u32 <= 57));
        text_laws::law_decimal_reads_back(n, behind);
        assert((d + behind)[0] == '-');
        assert((d + behind).skip(1) =~= text::dec_text(n) + behind);
    }
}

proof fn lemma_number_behind(body: Seq<char>, key: Seq<char>, digits: Seq<char>)
    requires
        says_number(body, key, digits),
        digits.len() > 0,
        text::is_inked(digits[0]),
    ensures
        ({
            let pat = number_mark(key);
            answer::behind(body, pat) is Some && exists|behind: Seq<char>|
                text::trim_start(answer::behind(body, pat)->0) == #[trigger] (digits + behind) && (
                behind.len() > 0 ==> !(48 <= behind[0] as u32 <= 57))
        }),
{
    let pat = number_mark(key);
    let (before, space, behind) = choose|before: Seq<char>, space: Seq<char>, behind: Seq<char>|
        body == #[trigger] (before + number_mark(key) + space + digits + behind)
            && text::is_blank(space) && (behind.len() > 0 ==> !(48 <= behind[0] as u32 <= 57))
            && forall|j: int|
            0 <= j < before.len() ==> !#[trigger] text::occurs_at(
                body,
                number_mark(key),
                j,
            );
    let rest = space + (digits + behind);
    assert(body =~= before + pat + rest);
    lemma_behind_first(before, pat, rest);
    text::law_leading_blanks_go(space, digits + behind);
}

/// What is not in an answer is not read out of it.
pub proof fn law_missing_is_missing(body: Seq<char>, key: Seq<char>)
    ensures
        !text::occurs(body, text_mark(key)) ==> answer::string_of(body, key)
            is None,
        !text::occurs(body, number_mark(key)) ==> answer::u64_of(body, key) is None
            && answer::i32_of(body, key) is None,
{
    text::lemma_occurs_iff_found(body, text_mark(key));
    text::lemma_occurs_iff_found(body, number_mark(key));
}

// ----------------------------------------------------------------- resolving

/// What a song resolves to is what the server's answer says of it: the address,
/// the size, the bitrate, and the format by its name; it lasts twelve minutes
/// from now.
pub proof fn law_song_resolves_to_its_answer(
    entries: Seq<Entry>,
    song_id: Seq<char>,
    quality: Quality,
    now_ms: u64,
    body: Seq<char>,
    url: Seq<char>,
    size: nat,
    bitrate: nat,
    kind: Seq<char>,
)
    requires
        resolve::looked_up(entries, song_id, quality, now_ms) is Ask,
        now_ms <= 0xffff_ffff_ffff_ffff - 720000,
        says_text(body, "url"@, "https://"@ + url) || says_text(body, "url"@, "http://"@ + url),
        says_number(body, "size"@, text::dec_text(size)),
        size <= 0xffff_ffff_ffff_ffff,
        says_number(body, "br"@, text::dec_text(bitrate)),
        bitrate <= 0xffff_ffff,
        says_text(body, "type"@, kind),
    ensures
        ({
            &&& resolve::resolved(entries, song_id, quality, now_ms, Ok(body)) matches Ok(a)
            &&& says_text(body, "url"@, "https://"@ + url) ==> a.url == "https://"@ + url
            &&& says_text(body, "url"@, "http://"@ + url) ==> a.url == "http://"@ + url
            &&& a.size == Some(size as u64)
            &&& a.bitrate == bitrate
            &&& kind == "mp3"@ || kind == "m4a"@ || kind == "flac"@ ==> provider::format_name(
                a.format,
            ) == kind
            &&& a.song_id == song_id
            &&& a.quality == quality
            &&& a.source == "netease"@
            &&& a.expires_at == now_ms + 720000
        }),
{
    reveal_strlit("https://");
    reveal_strlit("http://");
    let secure = "https://"@ + url;
    let plain = "http://"@ + url;
    if says_text(body, "url"@, secure) {
        law_text_is_read(body, "url"@, secure);
        assert(secure.subrange(0, 8) =~= "https://"@);
    }
    if says_text(body, "url"@, plain) {
        law_text_is_read(body, "url"@, plain);
        assert(plain.subrange(0, 7) =~= "http://"@);
    }
    law_number_is_read(body, "size"@, size);
    law_number_is_read(body, "br"@, bitrate);
    if kind.len() > 0 {
        law_text_is_read(body, "type"@, kind);
    } else {
        reveal_strlit("mp3");
        reveal_strlit("m4a");
        reveal_strlit("flac");
    }
    resolve::law_format_has_the_name_of_its_type(kind);
}

/// An answer without a web address is no song, whatever else it says, and is not
/// noted.
pub proof fn law_answer_without_address_is_not_found(
    entries: Seq<Entry>,
    song_id: Seq<char>,
    quality: Quality,
    now_ms: u64,
    body: Seq<char>,
)
    requires
        resolve::looked_up(entries, song_id, quality, now_ms) is Ask,
        !text::occurs(body, text_mark("url"@)),
    ensures
        resolve::resolved(entries, song_id, quality, now_ms, Ok(body)) == Err::<Audio, Failure>(
            Failure::NotFound,
        ),
        resolve::cache_after(entries, song_id, quality, now_ms, Ok(body)) == entries,
{
    law_missing_is_missing(body, "url"@);
}

/// The server is asked for a song by its number, and for nothing that is no
/// number of one to twenty digits.
pub proof fn law_question_names_the_song(song_id: Seq<char>, quality: Quality, now_ms: u64)
    ensures
        ({
            let number = 1 <= song_id.len() <= 20 && forall|i: int|
                0 <= i < song_id.len() ==> 48 <= (#[trigger] song_id[i]) as u32 <= 57;
            match resolve::looked_up(Seq::empty(), song_id, quality, now_ms) {
                LookupView::Ask(c) => {
                    &&& number
                    &&& c.path == "/api/song/enhance/player/url/v1"@
                    &&& c.flavour == Flavour::WeApi
                    &&& c.params == seq![
                        ("ids"@, "["@ + song_id + "]"@),
                        ("level"@, level(quality)),
                        (
                            "encodeType"@,
                            if quality == Quality::Lossless {
                                "flac"@
                            } else {
                                "mp3"@
                            },
                        ),
                        ("csrf_token"@, ""@),
                    ]
                },
                LookupView::Answer(a) => !number && a == Err::<Audio, Failure>(Failure::NotFound),
            }
        }),
{
    reveal_strlit("");
    assert(""@ =~= Seq::<char>::empty());
    assert forall|i: int| 0 <= i < song_id.len() implies text::is_digit(#[trigger] song_id[i]) == (
    48 <= song_id[i] as u32 <= 57) by {
        text_laws::law_digits_are_ascii(song_id[i]);
    }
    if resolve::is_song_id(song_id) {
        assert forall|i: int| 0 <= i < song_id.len() implies 48 <= (#[trigger] song_id[i]) as u32
            <= 57 by {
            assert(text::is_digit(song_id[i]));
        }
    }
}

/// The server's ladder of qualities.
pub open spec fn level(quality: Quality) -> Seq<char> {
    match quality {
        Quality::Low => "standard"@,
        Quality::Medium => "higher"@,
        Quality::High => "exhigh"@,
        Quality::Lossless => "lossless"@,
        Quality::Auto => "exhigh"@,
    }
}

/// An address that the server gave is used for its song until three minutes
/// before it goes stale, and then the server is asked again.
pub proof fn law_address_is_used_for_nine_minutes(
    entries: Seq<Entry>,
    song_id: Seq<char>,
    quality: Quality,
    now_ms: u64,
    body: Seq<char>,
    later_ms: u64,
)
    requires
        resolve::looked_up(entries, song_id, quality, now_ms) is Ask,
        resolve::parsed_url(body) is Some,
        now_ms <= 0xffff_ffff_ffff_ffff - 720000,
        now_ms <= later_ms,
    ensures
        ({
            let after = resolve::cache_after(entries, song_id, quality, now_ms, Ok(body));
            match resolve::looked_up(after, song_id, quality, later_ms) {
                LookupView::Answer(Ok(a)) => {
                    &&& later_ms < now_ms + 540000
                    &&& resolve::resolved(entries, song_id, quality, now_ms, Ok(body)) matches Ok(b)
                    &&& a.url == b.url && a.size == b.size && a.bitrate == b.bitrate
                    &&& a.expires_at == b.expires_at && a.song_id == b.song_id && a.quality
                        == b.quality
                },
                LookupView::Answer(Err(_)) => false,
                LookupView::Ask(_) => later_ms >= now_ms + 540000,
            }
        }),
{
    let e = resolve::entry_of(song_id, quality, resolve::parsed_url(body)->0, now_ms);
    resolve::law_put_then_get(entries, e, song_id, quality, later_ms);
}

// ----------------------------------------------------------------- addresses

/// The anonymous address of a song is played from where the song resolves to, at
/// the server's referer.
pub proof fn law_anonymous_address_is_replaced(id: Seq<char>, referer: Seq<char>, a: Audio)
    requires
        resolve::is_song_id(id),
        text::begins(a.url, "http://"@) || text::begins(a.url, "https://"@),
    ensures
        resolve::play_address(
            "https://music.163.com/song/media/outer/url?id="@ + id + ".mp3"@,
            referer,
            Ok(a),
        ) == (a.url, "https://music.163.com/"@),
{
    resolve::law_address_names_its_song(id);
}

/// An address of the server without a referer gets the server's; any other keeps
/// what it has.
pub proof fn law_referer_of_an_address(before: Seq<char>, behind: Seq<char>, referer: Seq<char>)
    requires
        referer.len() > 0,
    ensures
        resolve::play_address(
            before + "126.net"@ + behind,
            Seq::empty(),
            Err(Failure::NotFound),
        ).1 == "https://music.163.com/"@,
        resolve::play_address(
            before + "music.163.com"@ + behind,
            Seq::empty(),
            Err(Failure::NotFound),
        ).1 == "https://music.163.com/"@,
        resolve::play_address(before, referer, Err(Failure::NotFound)).1 == referer,
        !text::occurs(before, "126.net"@) && !text::occurs(before, "music.163.com"@)
            ==> resolve::play_address(before, Seq::empty(), Err(Failure::NotFound)).1 == Seq::<
            char,
        >::empty(),
{
    let n = before.len() as int;
    let a = before + "126.net"@ + behind;
    assert(a.subrange(n, n + "126.net"@.len()) =~= "126.net"@);
    assert(text::occurs_at(a, "126.net"@, n));
    let b = before + "music.163.com"@ + behind;
    assert(b.subrange(n, n + "music.163.com"@.len()) =~= "music.163.com"@);
    assert(text::occurs_at(b, "music.163.com"@, n));
}

/// Statuses by which an address counts as stale: forbidden, not found, gone.
pub proof fn law_stale_statuses(status: i32, retried: bool)
    ensures
        resolve::recovery(status, retried) == resolve::Recovery::Unrelated <==> !(status == 403
            || status == 404 || status == 410),
        resolve::recovery(status, retried) == resolve::Recovery::GiveUp ==> retried,
        resolve::recovery(status, retried) == resolve::Recovery::Again ==> !retried,
{
}

// --------------------------------------------------------------------- calls

/// A call goes to the encrypted twin of its path.
pub proof fn law_call_goes_to_weapi(rest: Seq<char>)
    ensures
        api::weapi_address("/api/"@ + rest) == "https://music.163.com/weapi/"@ + rest,
{
    let path = "/api/"@ + rest;
    reveal_strlit("/api/");
    reveal_strlit("/weapi/");
    reveal_strlit("https://music.163.com");
    reveal_strlit("https://music.163.com/weapi/");
    assert(path.subrange(0, 5) =~= "/api/"@);
    assert(text::occurs_at(path, "/api/"@, 0));
    text::lemma_find_from(path, "/api/"@, 0);
    assert(text::find(path, "/api/"@) == Some(0int));
    assert(path.take(0) =~= Seq::empty());
    assert(path.skip(5) =~= rest);
    assert(api::weapi_address(path) =~= "https://music.163.com/weapi/"@ + rest);
}

/// Without a cookie a desktop client is claimed; a cookie goes along unchanged,
/// and every call names the server's page as its referer.
pub proof fn law_call_carries_its_cookie(
    rest: Seq<char>,
    params: Seq<char>,
    key: Seq<char>,
    cookie: Seq<char>,
)
    requires
        !text::has_zero(api::weapi_address("/api/"@ + rest)),
        !text::has_zero(cookie),
    ensures
        ({
            &&& api::payload_form("/api/"@ + rest, params, key, cookie) matches Ok(f)
            &&& f.url == "https://music.163.com/weapi/"@ + rest
            &&& f.referer == "https://music.163.com/"@
            &&& f.cookie == (if cookie.len() == 0 {
                "os=pc"@
            } else {
                cookie
            })
        }),
{
    law_call_goes_to_weapi(rest);
    reveal_strlit("os=pc");
    if text::has_zero("os=pc"@) {
        let at = choose|at: int| text::occurs_at("os=pc"@, seq!['\0'], at);
        assert("os=pc"@.subrange(at, at + 1)[0] == "os=pc"@[at]);
        assert(seq!['\0'][0] == '\0');
        assert("os=pc"@[0] == 'o' && "os=pc"@[1] == 's' && "os=pc"@[2] == '=' && "os=pc"@[3] == 'p'
            && "os=pc"@[4] == 'c');
    }
}

/// A reply counts only with its body and status 200; a transport error goes
/// first, and both are told by their numbers.
pub proof fn law_reply_counts_at_200(sent: i32, status: i32, body: Seq<u8>, set_cookie: Seq<u8>)
    ensures
        sent < 0 ==> api::reply_of(sent, status, body, set_cookie) == Err::<
            (Seq<char>, Seq<char>),
            Failure,
        >(Failure::Network("post "@ + text::int_text(sent as int))),
        sent >= 0 && status != 200 ==> api::reply_of(sent, status, body, set_cookie) == Err::<
            (Seq<char>, Seq<char>),
            Failure,
        >(Failure::Network("status "@ + text::int_text(status as int))),
        sent >= 0 && status == 200 && sent <= body.len() ==> (api::reply_of(
            sent,
            status,
            body,
            set_cookie,
        ) matches Ok(r) && r.0 == text::lossy_text(body.take(sent as int))),
{
}

// ---------------------------------------------------------------- what is kept

/// A kept address that is still good is what the song resolves to, with what was
/// kept of it; the server is not asked and nothing changes.
pub proof fn law_kept_address_is_used(
    entries: Seq<Entry>,
    e: Entry,
    now_ms: u64,
    reply: Result<Seq<char>, Failure>,
)
    requires
        resolve::is_song_id(e.song_id),
        resolve::hit_in(entries, e.song_id, e.quality, now_ms) == Some(e),
    ensures
        ({
            let r = resolve::resolved(entries, e.song_id, e.quality, now_ms, reply);
            r matches Ok(a) && a.url == e.url && a.size == e.size && a.bitrate == e.bitrate
                && a.song_id == e.song_id && a.quality == e.quality && a.source == "netease"@
                && a.expires_at == e.expires_at_ms && a.format == AudioFormat::Mp3 && a.duration_ms
                == 0
        }),
        resolve::cache_after(entries, e.song_id, e.quality, now_ms, reply) == entries,
{
}

/// An address without a time never goes stale; one with a time is good until three
/// minutes before it.
pub proof fn law_addresses_go_stale(e: Entry, now_ms: u64)
    ensures
        e.expires_at_ms == 0 ==> e.usable_at(now_ms),
        e.expires_at_ms > 0 ==> (e.usable_at(now_ms) <==> now_ms + 3 * 60 * 1000
            < e.expires_at_ms),
        now_ms <= 0xffff_ffff_ffff_ffff - 720000 ==> resolve::expiry(now_ms) == now_ms + 12 * 60
            * 1000,
        now_ms > 0xffff_ffff_ffff_ffff - 720000 ==> resolve::expiry(now_ms)
            == 0xffff_ffff_ffff_ffff,
{
}

/// What the server leaves out stays unknown: no size, a bitrate of zero, no format.
pub proof fn law_left_out_is_unknown(body: Seq<char>, url: Seq<char>)
    requires
        says_text(body, "url"@, url),
        text::begins(url, "http://"@) || text::begins(url, "https://"@),
        !text::occurs(body, number_mark("size"@)),
        !text::occurs(body, number_mark("br"@)),
        !text::occurs(body, text_mark("type"@)),
    ensures
        resolve::parsed_url(body) matches Some(p) && p.url == url && p.size is None && p.bitrate
            == 0 && resolve::format_of_kind(p.kind) is None,
{
    reveal_strlit("http://");
    reveal_strlit("https://");
    law_text_is_read(body, "url"@, url);
    law_missing_is_missing(body, "size"@);
    law_missing_is_missing(body, "br"@);
    law_missing_is_missing(body, "type"@);
    reveal_strlit("mp3");
    reveal_strlit("m4a");
    reveal_strlit("aac");
    reveal_strlit("flac");
}

/// The server's own failure is what the song resolves to, and nothing is noted.
pub proof fn law_failure_is_passed_on(
    entries: Seq<Entry>,
    song_id: Seq<char>,
    quality: Quality,
    now_ms: u64,
    f: Failure,
)
    requires
        resolve::looked_up(entries, song_id, quality, now_ms) is Ask,
    ensures
        resolve::resolved(entries, song_id, quality, now_ms, Err(f)) == Err::<Audio, Failure>(f),
        resolve::cache_after(entries, song_id, quality, now_ms, Err(f)) == entries,
{
}

/// A form goes out with the server's referer, unless its address or its cookie
/// holds a zero character.
pub proof fn law_forms(url: Seq<char>, body: Seq<char>, cookie: Seq<char>)
    ensures
        !text::has_zero(url) && !text::has_zero(cookie) ==> (api::form_of(url, body, cookie)
            matches Ok(f) && f.url == url && f.body == body && f.cookie == cookie && f.referer
            == "https://music.163.com/"@),
        text::has_zero(url) ==> api::form_of(url, body, cookie) == Err::<api::FormView, Failure>(
            Failure::Network("bad url"@),
        ),
        !text::has_zero(url) && text::has_zero(cookie) ==> api::form_of(url, body, cookie) == Err::<
            api::FormView,
            Failure,
        >(Failure::Network("bad cookie"@)),
{
}

/// A reply is read as far as it was sent, and its cookies up to the first zero; a
/// transport error and a status other than 200 are told with their number.
pub proof fn law_replies_are_read(
    sent: i32,
    status: i32,
    body: Seq<u8>,
    spare: Seq<u8>,
    cookies: Seq<u8>,
    rest: Seq<u8>,
)
    requires
        forall|i: int| 0 <= i < cookies.len() ==> #[trigger] cookies[i] != 0,
        body.len() <= 0x7fff_ffff,
    ensures
        sent == body.len() && status == 200 ==> api::reply_of(
            sent,
            status,
            body + spare,
            cookies + seq![0u8] + rest,
        ) == Ok::<(Seq<char>, Seq<char>), Failure>(
            (text::lossy_text(body), text::lossy_text(cookies)),
        ),
        sent == body.len() && status == 200 ==> api::reply_of(sent, status, body, cookies) == Ok::<
            (Seq<char>, Seq<char>),
            Failure,
        >((text::lossy_text(body), text::lossy_text(cookies))),
        sent < 0 ==> api::reply_of(sent, status, body, cookies) == Err::<
            (Seq<char>, Seq<char>),
            Failure,
        >(Failure::Network("post "@ + text::int_text(sent as int))),
        sent >= 0 && status != 200 ==> api::reply_of(sent, status, body, cookies) == Err::<
            (Seq<char>, Seq<char>),
            Failure,
        >(Failure::Network("status "@ + text::int_text(status as int))),
{
    let marked = cookies + seq![0u8] + rest;
    let n = cookies.len() as int;
    tags_laws::law_zero_is_found(marked, 0);
    assert(marked[n] == 0);
    assert forall|i: int| 0 <= i < n implies marked[i] != 0 by {
        assert(marked[i] == cookies[i]);
    }
    assert(marked.take(n) =~= cookies);
    tags_laws::law_zero_is_found(cookies, 0);
    assert(cookies.take(n) =~= cookies);
    assert((body + spare).take(body.len() as int) =~= body);
    assert(body.take(body.len() as int) =~= body);
}

/// An empty string counts as missing.
pub proof fn law_empty_text_is_missing(body: Seq<char>, key: Seq<char>)
    requires
        says_text(body, key, Seq::empty()),
    ensures
        answer::string_of(body, key) is None,
{
    let none = Seq::<char>::empty();
    let (before, behind) = choose|before: Seq<char>, behind: Seq<char>|
        body == #[trigger] (before + string_field(key, none) + behind) && forall|j: int|
            0 <= j < before.len() ==> !#[trigger] text::occurs_at(body, text_mark(key), j);
    let pat = text_mark(key);
    let n = before.len() as int;
    assert(quoted(none) =~= none);
    assert(body =~= before + pat + (seq!['"'] + behind));
    assert(body.subrange(n, n + pat.len()) =~= pat);
    assert(text::occurs_at(body, pat, n));
    text::lemma_find_from(body, pat, 0);
    assert(body.skip(n + pat.len()) =~= seq!['"'] + behind);
}

} // verus!
