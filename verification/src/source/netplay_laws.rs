//! What the two lists on the card name, over lists that are put together out of
//! their tracks.

use vstd::prelude::*;
use crate::json;
use crate::source::netplay;
use crate::source::netplay::Track;
use crate::text;
use crate::text_laws;

verus! {

/// A line as a list may hold it: ink at both ends, and no note.
pub open spec fn is_entry(s: Seq<char>) -> bool {
    text_laws::is_line(s) && text::has_inked_ends(s) && s[0] != '#'
}

/// A track that can be written down in three lines.
pub open spec fn is_listable(t: Track) -> bool {
    &&& is_entry(t.url) && is_entry(t.referer) && is_entry(t.title)
    &&& text::begins(t.url, "http://"@) || text::begins(t.url, "https://"@)
}

/// The lines of tracks: address, referer, title.
pub open spec fn track_lines(tracks: Seq<Track>) -> Seq<Seq<char>>
    decreases tracks.len(),
{
    if tracks.len() == 0 {
        Seq::empty()
    } else {
        let t = tracks.last();
        track_lines(tracks.drop_last()) + seq![t.url, t.referer, t.title]
    }
}

proof fn lemma_entry(s: Seq<char>)
    requires
        is_entry(s),
    ensures
        text::trimmed(s) == s,
        s.len() > 0,
        s[0] != '#',
{
    text::law_trimmed_is_the_text(Seq::empty(), s, Seq::empty());
}

proof fn lemma_read_tracks(tracks: Seq<Track>)
    requires
        forall|i: int| 0 <= i < tracks.len() ==> is_listable(#[trigger] tracks[i]),
    ensures
        netplay::read_lines(track_lines(tracks)) == (tracks, Seq::<Seq<char>>::empty()),
        text_laws::are_lines(track_lines(tracks)),
    decreases tracks.len(),
{
    let lines = track_lines(tracks);
    if tracks.len() == 0 {
        assert(tracks =~= Seq::empty());
    } else {
        let front = tracks.drop_last();
        let t = tracks.last();
        assert(is_listable(tracks[tracks.len() - 1]));
        lemma_read_tracks(front);
        lemma_entry(t.url);
        lemma_entry(t.referer);
        lemma_entry(t.title);
        let before = track_lines(front);
        let one = before.push(t.url);
        let two = one.push(t.referer);
        assert(lines =~= two.push(t.title));
        assert(one.drop_last() =~= before);
        assert(two.drop_last() =~= one);
        assert(lines.drop_last() =~= two);
        let none = Seq::<Seq<char>>::empty();
        assert(netplay::read_lines(one) == (front, none.push(t.url)));
        assert(netplay::read_lines(two) == (front, none.push(t.url).push(t.referer)));
        let block = none.push(t.url).push(t.referer).push(t.title);
        assert(block[0] == t.url && block[1] == t.referer && block[2] == t.title);
        assert(netplay::block_track(block) == Some(t));
        assert(front.push(t) =~= tracks);
        assert forall|i: int| 0 <= i < lines.len() implies text_laws::is_line(#[trigger] lines[i]) by {
            if i < before.len() {
                assert(lines[i] == before[i]);
            }
        }
    }
}

/// A list of blocks of three lines names exactly their tracks, in order, with
/// either line end.
pub proof fn law_blocks_read_back(tracks: Seq<Track>, cr: bool)
    requires
        forall|i: int| 0 <= i < tracks.len() ==> is_listable(#[trigger] tracks[i]),
    ensures
        netplay::netplay_of(
            text_laws::ended_lines(track_lines(tracks), text_laws::line_end(cr)),
        ) == tracks,
{
    lemma_read_tracks(tracks);
    let s = text_laws::ended_lines(track_lines(tracks), text_laws::line_end(cr));
    text_laws::law_lines_read_back(track_lines(tracks), cr, Seq::empty());
    assert(s + Seq::<char>::empty() =~= s);
    assert(netplay::block_track(Seq::<Seq<char>>::empty()) is None);
}

/// A blank line ends a block early; a note is passed over. What a short block
/// leaves out is filled in.
pub proof fn law_short_blocks_and_notes(
    lines: Seq<Seq<char>>,
    url: Seq<char>,
    note: Seq<char>,
    blank: Seq<char>,
)
    requires
        netplay::read_lines(lines).1.len() == 0,
        is_entry(url),
        text::begins(url, "http://"@) || text::begins(url, "https://"@),
        text::has_inked_ends(note),
        note[0] == '#',
        text::is_blank(blank),
    ensures
        netplay::read_lines(lines.push(note)) == netplay::read_lines(lines),
        netplay::read_lines(lines.push(blank)) == netplay::read_lines(lines),
        ({
            let r = netplay::read_lines(lines.push(url).push(blank));
            &&& r.1.len() == 0
            &&& r.0.len() == netplay::read_lines(lines).0.len() + 1
            &&& r.0.drop_last() == netplay::read_lines(lines).0
            &&& r.0.last().url == url
            &&& r.0.last().referer == netplay::fallback_referer(url)
            &&& r.0.last().title == netplay::plain_title(url)
        }),
{
    text::law_trimmed_is_the_text(Seq::empty(), note, Seq::empty());
    text::law_trimmed_is_the_text(blank, note, Seq::empty());
    lemma_entry(url);
    assert(lines.push(note).drop_last() =~= lines);
    assert(lines.push(blank).drop_last() =~= lines);
    assert(lines.push(url).drop_last() =~= lines);
    assert(lines.push(url).push(blank).drop_last() =~= lines.push(url));
    let (tracks, block) = netplay::read_lines(lines);
    assert(block =~= Seq::empty());
    assert(netplay::block_track(block) is None);
    let one = block.push(url);
    assert(netplay::read_lines(lines.push(url)) == (tracks, one));
    assert(one[0] == url);
    assert(netplay::line_or_empty(one, 1) =~= Seq::empty());
    assert(netplay::line_or_empty(one, 2) =~= Seq::empty());
    text::law_trimmed_is_the_text(Seq::empty(), note, Seq::empty());
    let t = netplay::block_track(one)->0;
    assert(tracks.push(t).drop_last() =~= tracks);
}

/// What a track without a title is called: by the number behind `id=`, where
/// there is one.
pub proof fn law_untitled_tracks_are_numbered(
    before: Seq<char>,
    id: Seq<char>,
    rest: Seq<char>,
    other: Seq<char>,
)
    requires
        forall|i: int| 0 <= i < before.len() ==> #[trigger] before[i] != '=',
        id.len() > 0,
        forall|i: int| 0 <= i < id.len() ==> 48 <= (#[trigger] id[i]) as u32 <= 57,
        rest.len() > 0 ==> !(48 <= rest[0] as u32 <= 57),
        forall|i: int| 0 <= i < other.len() ==> #[trigger] other[i] != '=',
    ensures
        netplay::plain_title(before + "id="@ + id + rest) == "[在线] "@ + id,
        netplay::plain_title(other) == "[在线] 网络歌曲"@,
{
    reveal_strlit("id=");
    let url = before + "id="@ + id + rest;
    let n = before.len() as int;
    assert(url.subrange(n, n + 3) =~= "id="@);
    assert(text::occurs_at(url, "id="@, n));
    assert forall|j: int| 0 <= j < n implies !text::occurs_at(url, "id="@, j) by {
        if text::occurs_at(url, "id="@, j) {
            assert(url.subrange(j, j + 3)[2] == url[j + 2]);
            if j + 2 < n {
                assert(url[j + 2] == before[j + 2]);
            } else {
                assert(url[j + 2] == "id="@[j + 2 - n]);
            }
        }
    }
    text::lemma_find_from(url, "id="@, 0);
    assert(url.skip(n + 3) =~= id + rest);
    assert forall|i: int| 0 <= i < id.len() implies text::is_digit(#[trigger] id[i]) by {
        text_laws::law_digits_are_ascii(id[i]);
    }
    if rest.len() > 0 {
        text_laws::law_digits_are_ascii(rest[0]);
    }
    text_laws::lemma_leading_all(id, rest);
    text::lemma_find_from(other, "id="@, 0);
    if text::find(other, "id="@) is Some {
        let j = text::find(other, "id="@)->0;
        assert(other.subrange(j, j + 3)[2] == other[j + 2]);
    }
}

// ---------------------------------------------------------------------- words

/// A word: not empty, and no white space in it.
pub open spec fn is_word(w: Seq<char>) -> bool {
    w.len() > 0 && forall|i: int| 0 <= i < w.len() ==> text::is_inked(#[trigger] w[i])
}

proof fn lemma_word_grows(s: Seq<char>, w: Seq<char>)
    requires
        forall|i: int| 0 <= i < w.len() ==> text::is_inked(#[trigger] w[i]),
    ensures
        netplay::word_state(s + w) == (netplay::word_state(s).0, netplay::word_state(s).1 + w),
    decreases w.len(),
{
    let (ws, cur) = netplay::word_state(s);
    if w.len() == 0 {
        assert(s + w =~= s);
        assert(cur + w =~= cur);
    } else {
        lemma_word_grows(s, w.drop_last());
        assert((s + w).drop_last() =~= s + w.drop_last());
        assert((s + w).last() == w[w.len() - 1]);
        text::lemma_ink_is_not_white(w[w.len() - 1]);
        assert((cur + w.drop_last()).push(w.last()) =~= cur + w);
    }
}

proof fn lemma_words_of_spaced(ws: Seq<Seq<char>>)
    requires
        ws.len() > 0,
        forall|i: int| 0 <= i < ws.len() ==> is_word(#[trigger] ws[i]),
    ensures
        netplay::word_state(netplay::spaced(ws)) == (ws.drop_last(), ws.last()),
        netplay::spaced(ws).len() > 0,
        text::has_inked_ends(netplay::spaced(ws)),
        netplay::spaced(ws)[0] == ws[0][0],
    decreases ws.len(),
{
    reveal_strlit(" ");
    let s = netplay::spaced(ws);
    let last = ws[ws.len() - 1];
    assert(is_word(last));
    assert(is_word(ws[0]));
    if ws.len() == 1 {
        assert(s =~= Seq::<char>::empty() + ws[0]);
        lemma_word_grows(Seq::empty(), ws[0]);
        assert(Seq::<char>::empty() + ws[0] =~= ws[0]);
        assert(ws.drop_last() =~= Seq::empty());
        assert(text::is_inked(s[0]) && text::is_inked(s[s.len() - 1]));
    } else {
        let front = netplay::spaced(ws.drop_last());
        lemma_words_of_spaced(ws.drop_last());
        let with_space = front + " "@;
        assert(with_space.drop_last() =~= front);
        assert(with_space.last() == ' ');
        assert(is_word(ws.drop_last()[ws.len() - 2]));
        assert(netplay::word_state(with_space) == (
            ws.drop_last().drop_last().push(ws.drop_last().last()),
            Seq::<char>::empty(),
        ));
        assert(ws.drop_last().drop_last().push(ws.drop_last().last()) =~= ws.drop_last());
        lemma_word_grows(with_space, last);
        assert(s =~= with_space + last);
        assert(Seq::<char>::empty() + last =~= last);
        assert(s[0] == front[0]);
        assert(text::is_inked(last[last.len() - 1]));
        assert(s[s.len() - 1] == last[last.len() - 1]);
        assert(ws.drop_last()[0] == ws[0]);
    }
}

/// A line of numbers names the song with its number: the address, the server's
/// referer, and the words behind the number as its title.
pub proof fn law_numbered_line_names_its_song(
    id: Seq<char>,
    title: Seq<Seq<char>>,
    before: Seq<char>,
    after: Seq<char>,
)
    requires
        1 <= id.len() <= 20,
        forall|i: int| 0 <= i < id.len() ==> 48 <= (#[trigger] id[i]) as u32 <= 57,
        forall|i: int| 0 <= i < title.len() ==> is_word(#[trigger] title[i]),
        text::is_blank(before),
        text::is_blank(after),
    ensures
        netplay::id_track(before + netplay::spaced(seq![id] + title) + after) == Some(
            Track {
                url: "https://music.163.com/song/media/outer/url?id="@ + id + ".mp3"@,
                referer: "https://music.163.com/"@,
                title: if title.len() == 0 {
                    "[在线] "@ + id
                } else {
                    netplay::spaced(title)
                },
            },
        ),
{
    let ws = seq![id] + title;
    assert forall|i: int| 0 <= i < ws.len() implies is_word(#[trigger] ws[i]) by {
        if i == 0 {
            assert forall|k: int| 0 <= k < id.len() implies text::is_inked(#[trigger] id[k]) by {
                lemma_digit_is_inked(id[k]);
            }
        } else {
            assert(ws[i] == title[i - 1]);
        }
    }
    lemma_words_of_spaced(ws);
    let line = netplay::spaced(ws);
    text::law_trimmed_is_the_text(before, line, after);
    assert(ws.drop_last().push(ws.last()) =~= ws);
    assert(netplay::words_of(line) == ws);
    assert(ws[0] == id);
    assert(48 <= id[0] as u32 <= 57);
    assert forall|i: int| 0 <= i < id.len() implies text::is_digit(#[trigger] id[i]) by {
        text_laws::law_digits_are_ascii(id[i]);
    }
    assert(ws.skip(1) =~= title);
}

proof fn lemma_digit_is_inked(c: char)
    requires
        48 <= c as u32 <= 57,
    ensures
        text::is_inked(c),
{
}

/// A line that does not begin with a number names nothing, nor does a note.
pub proof fn law_other_lines_name_nothing(ws: Seq<Seq<char>>)
    requires
        ws.len() > 0,
        forall|i: int| 0 <= i < ws.len() ==> is_word(#[trigger] ws[i]),
        exists|k: int| 0 <= k < ws[0].len() && !(48 <= (#[trigger] ws[0][k]) as u32 <= 57),
    ensures
        netplay::id_track(netplay::spaced(ws)) is None,
{
    lemma_words_of_spaced(ws);
    let line = netplay::spaced(ws);
    text::law_trimmed_is_the_text(Seq::empty(), line, Seq::empty());
    assert(ws.drop_last().push(ws.last()) =~= ws);
    let k = choose|k: int| 0 <= k < ws[0].len() && !(48 <= (#[trigger] ws[0][k]) as u32 <= 57);
    text_laws::law_digits_are_ascii(ws[0][k]);
    assert(!text::is_digit(ws[0][k]));
}

// ------------------------------------------------------------------- the list

/// A merged list names no address twice, if the first list does not.
pub proof fn law_merge_has_no_doubles(tracks: Seq<Track>, more: Seq<Track>)
    requires
        forall|i: int, j: int|
            0 <= i < j < tracks.len() ==> (#[trigger] tracks[i]).url != (#[trigger] tracks[j]).url,
    ensures
        forall|i: int, j: int|
            0 <= i < j < netplay::merged(tracks, more).len() ==> (#[trigger] netplay::merged(
                tracks,
                more,
            )[i]).url != (#[trigger] netplay::merged(tracks, more)[j]).url,
    decreases more.len(),
{
    if more.len() > 0 {
        law_merge_has_no_doubles(tracks, more.drop_last());
        let front = netplay::merged(tracks, more.drop_last());
        let all = netplay::merged(tracks, more);
        assert forall|i: int, j: int| 0 <= i < j < all.len() implies (#[trigger] all[i]).url != (
        #[trigger] all[j]).url by {
            assert(all[i] == front[i]);
            if j < front.len() {
                assert(all[j] == front[j]);
            }
        }
    }
}

/// The referer of an address is that of the first track with it; without one the
/// server's own pages get the server's referer, and others none.
pub proof fn law_referer_comes_from_the_list(tracks: Seq<Track>, i: int, url: Seq<char>)
    requires
        0 <= i < tracks.len(),
        tracks[i].url == url,
        forall|j: int| 0 <= j < i ==> (#[trigger] tracks[j]).url != url,
        tracks[i].referer.len() > 0,
    ensures
        netplay::referer_of(tracks, url) == tracks[i].referer,
{
    lemma_listed_referer(tracks, i, url);
}

proof fn lemma_listed_referer(tracks: Seq<Track>, i: int, url: Seq<char>)
    requires
        0 <= i < tracks.len(),
        tracks[i].url == url,
        forall|j: int| 0 <= j < i ==> (#[trigger] tracks[j]).url != url,
    ensures
        netplay::listed_referer(tracks, url) == tracks[i].referer,
    decreases i,
{
    if i > 0 {
        assert(tracks[0].url != url);
        assert forall|j: int| 0 <= j < i - 1 implies (#[trigger] tracks.skip(1)[j]).url != url by {
            assert(tracks.skip(1)[j] == tracks[j + 1]);
        }
        lemma_listed_referer(tracks.skip(1), i - 1, url);
    }
}

/// An address of the server's hosts falls back to the server's referer.
pub proof fn law_fallback_referer(before: Seq<char>, behind: Seq<char>)
    ensures
        netplay::fallback_referer(before + "music.163.com"@ + behind) == "https://music.163.com/"@,
        netplay::fallback_referer(before + "126.net"@ + behind) == "https://music.163.com/"@,
        !text::occurs(before, "126.net"@) && !text::occurs(before, "music.163.com"@)
            ==> netplay::fallback_referer(before) == Seq::<char>::empty(),
{
    let n = before.len() as int;
    let a = before + "126.net"@ + behind;
    assert(a.subrange(n, n + "126.net"@.len()) =~= "126.net"@);
    assert(text::occurs_at(a, "126.net"@, n));
    let b = before + "music.163.com"@ + behind;
    assert(b.subrange(n, n + "music.163.com"@.len()) =~= "music.163.com"@);
    assert(text::occurs_at(b, "music.163.com"@, n));
}

/// A track is shown by its address, title and referer.
pub proof fn law_track_is_shown(t: Track)
    ensures
        netplay::track_json(t) == "{\"url\":\""@ + json::escaped(t.url, true) + "\",\"title\":\""@
            + json::escaped(t.title, true) + "\",\"referer\":\""@ + json::escaped(t.referer, true)
            + "\"}"@,
        netplay::tracks_json(seq![t]) == netplay::track_json(t),
{
}

} // verus!
