//! The list of online tracks that the card carries.
//!
//! Two files can name tracks, each on its own. `netplay.url` holds blocks of up
//! to three lines, an address, a referer and a title, with blank lines between
//! the blocks. `netease.ids` holds one song identifier a line, with an optional
//! title behind it. Lines that begin with `#` are notes.

use vstd::prelude::*;
use crate::json;
use crate::text;
use crate::provider::netease;
use crate::provider::netease::answer;
use crate::provider::netease::resolve;

verus! {

#[derive(Clone)]
pub struct NetplayTrack {
    pub url: String,
    pub referer: String,
    pub title: String,
}

/// What a [`NetplayTrack`] says.
#[verifier::ext_equal]
pub struct Track {
    pub url: Seq<char>,
    pub referer: Seq<char>,
    pub title: Seq<char>,
}

impl View for NetplayTrack {
    type V = Track;

    open spec fn view(&self) -> Track {
        Track { url: self.url@, referer: self.referer@, title: self.title@ }
    }
}

pub open spec fn tracks_of(v: Seq<NetplayTrack>) -> Seq<Track> {
    v.map_values(|t: NetplayTrack| t@)
}

pub open spec fn fallback_referer(url: Seq<char>) -> Seq<char> {
    if resolve::is_netease(url) {
        netease::REFERER@
    } else {
        Seq::empty()
    }
}

pub fn default_referer(url: &str) -> (r: String)
    ensures
        r@ == fallback_referer(url@),
{
    if resolve::is_netease_host(url) {
        netease::REFERER.to_owned()
    } else {
        String::new()
    }
}

/// The digits behind `id=` in an address.
pub open spec fn id_hint(url: Seq<char>) -> Seq<char> {
    match answer::behind(url, "id="@) {
        Some(rest) => text::leading_digits(rest),
        None => Seq::empty(),
    }
}

fn url_id_hint(url: &str) -> (r: String)
    ensures
        r@ == id_hint(url@),
{
    let cs = text::chars_of(url);
    let len: usize = cs.len();
    let pat = text::chars_of("id=");
    match text::find_chars(cs.as_slice(), pat.as_slice()) {
        Some(i) => {
            let from: usize = i + pat.len();
            let n = text::digit_run(cs.as_slice(), from);
            text::text_of_range(cs.as_slice(), from, from + n)
        },
        None => String::new(),
    }
}

// ---------------------------------------------------------------- netplay.url

/// The title of a track that was given none.
pub open spec fn plain_title(url: Seq<char>) -> Seq<char> {
    if id_hint(url).len() == 0 {
        "[在线] 网络歌曲"@
    } else {
        "[在线] "@ + id_hint(url)
    }
}

pub open spec fn line_or_empty(block: Seq<Seq<char>>, i: int) -> Seq<char> {
    if i < block.len() {
        block[i]
    } else {
        Seq::empty()
    }
}

/// The track that a block stands for; none without a web address.
pub open spec fn block_track(block: Seq<Seq<char>>) -> Option<Track> {
    if block.len() == 0 || !resolve::is_web_address(block[0]) {
        None
    } else {
        let url = block[0];
        let referer = line_or_empty(block, 1);
        let title = line_or_empty(block, 2);
        Some(
            Track {
                url,
                referer: if referer.len() == 0 {
                    fallback_referer(url)
                } else {
                    referer
                },
                title: if text::trimmed(title).len() == 0 {
                    plain_title(url)
                } else {
                    title
                },
            },
        )
    }
}

pub open spec fn with_block(tracks: Seq<Track>, block: Seq<Seq<char>>) -> Seq<Track> {
    match block_track(block) {
        Some(t) => tracks.push(t),
        None => tracks,
    }
}

/// The tracks of the blocks that are complete, and the block that is open, after
/// some lines. A blank line and a third line both complete a block.
pub open spec fn read_lines(lines: Seq<Seq<char>>) -> (Seq<Track>, Seq<Seq<char>>)
    decreases lines.len(),
{
    if lines.len() == 0 {
        (Seq::empty(), Seq::empty())
    } else {
        let (tracks, block) = read_lines(lines.drop_last());
        let line = text::trimmed(lines.last());
        if line.len() == 0 {
            (with_block(tracks, block), Seq::empty())
        } else if line[0] == '#' {
            (tracks, block)
        } else if block.len() == 2 {
            (with_block(tracks, block.push(line)), Seq::empty())
        } else {
            (tracks, block.push(line))
        }
    }
}

/// The tracks of `netplay.url`.
pub open spec fn netplay_of(s: Seq<char>) -> Seq<Track> {
    let (tracks, block) = read_lines(text::lines_of(s));
    with_block(tracks, block)
}

fn line_at(block: &[String], i: usize) -> (r: String)
    ensures
        r@ == line_or_empty(text::texts(block@), i as int),
{
    if i < block.len() {
        block[i].as_str().to_owned()
    } else {
        String::new()
    }
}

fn track_of_block(block: &[String]) -> (r: Option<NetplayTrack>)
    ensures
        match r {
            Some(t) => block_track(text::texts(block@)) == Some(t@),
            None => block_track(text::texts(block@)) is None,
        },
{
    if block.len() == 0 {
        return None;
    }
    let url = line_at(block, 0);
    assert(text::texts(block@)[0] == url@);
    if !resolve::web_address(url.as_str()) {
        return None;
    }
    let referer = line_at(block, 1);
    let title = line_at(block, 2);
    let shown: String = if text::trim(title.as_str()).as_str().is_empty() {
        let id = url_id_hint(url.as_str());
        if id.as_str().is_empty() {
            "[在线] 网络歌曲".to_owned()
        } else {
            let mut s = "[在线] ".to_owned();
            s.append(id.as_str());
            s
        }
    } else {
        title
    };
    let from: String = if referer.as_str().is_empty() {
        default_referer(url.as_str())
    } else {
        referer
    };
    let t = NetplayTrack { url, referer: from, title: shown };
    assert(t@ =~= block_track(text::texts(block@))->0);
    Some(t)
}

fn flush(block: &[String], out: &mut Vec<NetplayTrack>)
    ensures
        tracks_of(final(out)@) == with_block(tracks_of(old(out)@), text::texts(block@)),
{
    if let Some(t) = track_of_block(block) {
        out.push(t);
        assert(tracks_of(out@) =~= tracks_of(old(out)@).push(t@));
    }
}

pub fn parse_netplay(s: &str) -> (r: Vec<NetplayTrack>)
    ensures
        tracks_of(r@) == netplay_of(s@),
{
    let lines = text::lines(s);
    let ghost all = text::lines_of(s@);
    let mut out: Vec<NetplayTrack> = Vec::new();
    let mut block: Vec<String> = Vec::new();
    let mut i: usize = 0;
    assert(all.take(0) =~= Seq::empty());
    assert(tracks_of(out@) =~= Seq::empty());
    assert(text::texts(block@) =~= Seq::empty());
    while i < lines.len()
        invariant
            i <= lines@.len(),
            text::texts(lines@) == all,
            block@.len() <= 2,
            (tracks_of(out@), text::texts(block@)) == read_lines(all.take(i as int)),
        decreases lines.len() - i,
    {
        assert(all.take(i + 1).drop_last() =~= all.take(i as int));
        assert(all[i as int] == lines@[i as int]@);
        let ghost b0 = text::texts(block@);
        let line = text::trim(lines[i].as_str());
        let cs = text::chars_of(line.as_str());
        if cs.len() == 0 {
            flush(block.as_slice(), &mut out);
            block = Vec::new();
            assert(text::texts(block@) =~= Seq::empty());
        } else if cs[0] != '#' {
            block.push(line);
            assert(text::texts(block@) =~= b0.push(cs@));
            if block.len() == 3 {
                flush(block.as_slice(), &mut out);
                block = Vec::new();
                assert(text::texts(block@) =~= Seq::empty());
            }
        }
        i += 1;
    }
    assert(all.take(i as int) =~= all);
    flush(block.as_slice(), &mut out);
    out
}

// ---------------------------------------------------------------- netease.ids

/// The words before the last one that is open, and that one.
pub open spec fn word_state(s: Seq<char>) -> (Seq<Seq<char>>, Seq<char>)
    decreases s.len(),
{
    if s.len() == 0 {
        (Seq::empty(), Seq::empty())
    } else {
        let (ws, cur) = word_state(s.drop_last());
        if !text::is_white(s.last()) {
            (ws, cur.push(s.last()))
        } else if cur.len() > 0 {
            (ws.push(cur), Seq::empty())
        } else {
            (ws, cur)
        }
    }
}

/// The words of a line: what stands between white space.
pub open spec fn words_of(s: Seq<char>) -> Seq<Seq<char>> {
    let (ws, cur) = word_state(s);
    if cur.len() > 0 {
        ws.push(cur)
    } else {
        ws
    }
}

fn words(cs: &[char]) -> (r: Vec<String>)
    ensures
        text::texts(r@) == words_of(cs@),
{
    let mut out: Vec<String> = Vec::new();
    let mut cur = String::new();
    let mut i: usize = 0;
    assert(cs@.take(0) =~= Seq::empty());
    assert(text::texts(out@) =~= Seq::empty());
    assert(cur@ =~= Seq::empty());
    while i < cs.len()
        invariant
            i <= cs@.len(),
            (text::texts(out@), cur@) == word_state(cs@.take(i as int)),
        decreases cs.len() - i,
    {
        assert(cs@.take(i + 1).drop_last() =~= cs@.take(i as int));
        let ghost before = text::texts(out@);
        if !text::white(cs[i]) {
            cur.push(cs[i]);
        } else if !cur.as_str().is_empty() {
            let ghost word = cur@;
            out.push(cur);
            assert(text::texts(out@) =~= before.push(word));
            cur = String::new();
            assert(cur@ =~= Seq::empty());
        }
        i += 1;
    }
    assert(cs@.take(i as int) =~= cs@);
    if !cur.as_str().is_empty() {
        let ghost before = text::texts(out@);
        let ghost word = cur@;
        out.push(cur);
        assert(text::texts(out@) =~= before.push(word));
    }
    out
}

/// Words with one space between them.
pub open spec fn spaced(ws: Seq<Seq<char>>) -> Seq<char>
    decreases ws.len(),
{
    if ws.len() == 0 {
        Seq::empty()
    } else if ws.len() == 1 {
        ws[0]
    } else {
        spaced(ws.drop_last()) + " "@ + ws.last()
    }
}

/// The track that a line of `netease.ids` stands for.
pub open spec fn id_track(raw: Seq<char>) -> Option<Track> {
    let line = text::trimmed(raw);
    let ws = words_of(line);
    if line.len() == 0 || line[0] == '#' || ws.len() == 0 {
        None
    } else {
        match netease::media_address(ws[0]) {
            Some(url) => Some(
                Track {
                    url,
                    referer: netease::REFERER@,
                    title: if ws.len() == 1 {
                        "[在线] "@ + ws[0]
                    } else {
                        spaced(ws.skip(1))
                    },
                },
            ),
            None => None,
        }
    }
}

pub open spec fn id_tracks(lines: Seq<Seq<char>>) -> Seq<Track>
    decreases lines.len(),
{
    if lines.len() == 0 {
        Seq::empty()
    } else {
        let front = id_tracks(lines.drop_last());
        match id_track(lines.last()) {
            Some(t) => front.push(t),
            None => front,
        }
    }
}

fn join_from(ws: &[String], from: usize) -> (r: String)
    requires
        from < ws@.len(),
    ensures
        r@ == spaced(text::texts(ws@).skip(from as int)),
{
    let ghost all = text::texts(ws@).skip(from as int);
    let mut s = ws[from].as_str().to_owned();
    let mut i: usize = from + 1;
    assert(all.take(1).len() == 1 && all.take(1)[0] == s@);
    while i < ws.len()
        invariant
            from < i <= ws@.len(),
            all == text::texts(ws@).skip(from as int),
            s@ == spaced(all.take(i - from)),
        decreases ws.len() - i,
    {
        assert(all.take(i + 1 - from).drop_last() =~= all.take(i - from));
        assert(all.take(i + 1 - from).last() == ws@[i as int]@);
        s.append(" ");
        s.append(ws[i].as_str());
        i += 1;
    }
    assert(all.take(i - from) =~= all);
    s
}

fn track_of_id(raw: &str) -> (r: Option<NetplayTrack>)
    ensures
        match r {
            Some(t) => id_track(raw@) == Some(t@),
            None => id_track(raw@) is None,
        },
{
    let line = text::trim(raw);
    let cs = text::chars_of(line.as_str());
    if cs.len() == 0 || cs[0] == '#' {
        return None;
    }
    let ws = words(cs.as_slice());
    if ws.len() == 0 {
        return None;
    }
    assert(text::texts(ws@)[0] == ws@[0]@);
    let url = match netease::anonymous_media_url(ws[0].as_str()) {
        Some(u) => u,
        None => {
            return None;
        },
    };
    let title: String = if ws.len() == 1 {
        let mut s = "[在线] ".to_owned();
        s.append(ws[0].as_str());
        s
    } else {
        join_from(ws.as_slice(), 1)
    };
    let t = NetplayTrack { url, referer: netease::REFERER.to_owned(), title };
    assert(t@ =~= id_track(raw@)->0);
    Some(t)
}

pub fn parse_netease_ids(s: &str) -> (r: Vec<NetplayTrack>)
    ensures
        tracks_of(r@) == id_tracks(text::lines_of(s@)),
{
    let lines = text::lines(s);
    let ghost all = text::lines_of(s@);
    let mut out: Vec<NetplayTrack> = Vec::new();
    let mut i: usize = 0;
    assert(all.take(0) =~= Seq::empty());
    assert(tracks_of(out@) =~= Seq::empty());
    while i < lines.len()
        invariant
            i <= lines@.len(),
            text::texts(lines@) == all,
            tracks_of(out@) == id_tracks(all.take(i as int)),
        decreases lines.len() - i,
    {
        assert(all.take(i + 1).drop_last() =~= all.take(i as int));
        assert(all[i as int] == lines@[i as int]@);
        let ghost before = tracks_of(out@);
        if let Some(t) = track_of_id(lines[i].as_str()) {
            out.push(t);
            assert(tracks_of(out@) =~= before.push(t@));
        }
        i += 1;
    }
    assert(all.take(i as int) =~= all);
    out
}

// ------------------------------------------------------------------- the list

pub open spec fn has_url(tracks: Seq<Track>, url: Seq<char>) -> bool {
    exists|i: int| 0 <= i < tracks.len() && (#[trigger] tracks[i]).url == url
}

/// The tracks, and then those of another list whose address is not there yet.
pub open spec fn merged(tracks: Seq<Track>, more: Seq<Track>) -> Seq<Track>
    decreases more.len(),
{
    if more.len() == 0 {
        tracks
    } else {
        let front = merged(tracks, more.drop_last());
        if has_url(front, more.last().url) {
            front
        } else {
            front.push(more.last())
        }
    }
}

/// The tracks that both files name; a file that is missing names none.
pub open spec fn listed(netplay: Option<Seq<char>>, ids: Option<Seq<char>>) -> Seq<Track> {
    let first = match netplay {
        Some(s) => netplay_of(s),
        None => Seq::empty(),
    };
    match ids {
        Some(s) => merged(first, id_tracks(text::lines_of(s))),
        None => first,
    }
}

fn contains_url(tracks: &[NetplayTrack], url: &str) -> (r: bool)
    ensures
        r == has_url(tracks_of(tracks@), url@),
{
    let mut i: usize = 0;
    while i < tracks.len()
        invariant
            i <= tracks@.len(),
            forall|j: int| 0 <= j < i ==> (#[trigger] tracks_of(tracks@)[j]).url != url@,
        decreases tracks.len() - i,
    {
        assert(tracks_of(tracks@)[i as int] == tracks@[i as int]@);
        if text::same_text(tracks[i].url.as_str(), url) {
            return true;
        }
        i += 1;
    }
    false
}

pub open spec fn opt_text(s: Option<&str>) -> Option<Seq<char>> {
    match s {
        Some(t) => Some(t@),
        None => None,
    }
}

/// The tracks of the two files, as far as they could be read.
pub fn netplay_tracks(netplay: Option<&str>, ids: Option<&str>) -> (r: Vec<NetplayTrack>)
    ensures
        tracks_of(r@) == listed(opt_text(netplay), opt_text(ids)),
{
    let mut out: Vec<NetplayTrack> = match netplay {
        Some(s) => parse_netplay(s),
        None => Vec::new(),
    };
    let ghost first = tracks_of(out@);
    assert(netplay is None ==> first =~= Seq::empty());
    if let Some(s) = ids {
        let more = parse_netease_ids(s);
        let ghost all = tracks_of(more@);
        let mut i: usize = 0;
        assert(all.take(0) =~= Seq::empty());
        while i < more.len()
            invariant
                i <= more@.len(),
                all == tracks_of(more@),
                tracks_of(out@) == merged(first, all.take(i as int)),
            decreases more.len() - i,
        {
            assert(all.take(i + 1).drop_last() =~= all.take(i as int));
            assert(all[i as int] == more@[i as int]@);
            if !contains_url(out.as_slice(), more[i].url.as_str()) {
                let t = NetplayTrack {
                    url: more[i].url.as_str().to_owned(),
                    referer: more[i].referer.as_str().to_owned(),
                    title: more[i].title.as_str().to_owned(),
                };
                let ghost before = tracks_of(out@);
                assert(t@ =~= all[i as int]);
                out.push(t);
                assert(tracks_of(out@) =~= before.push(t@));
            }
            i += 1;
        }
        assert(all.take(i as int) =~= all);
    }
    out
}

/// The referer of the first track with an address, empty without one.
pub open spec fn listed_referer(tracks: Seq<Track>, url: Seq<char>) -> Seq<char>
    decreases tracks.len(),
{
    if tracks.len() == 0 {
        Seq::empty()
    } else if tracks[0].url == url {
        tracks[0].referer
    } else {
        listed_referer(tracks.skip(1), url)
    }
}

pub open spec fn referer_of(tracks: Seq<Track>, url: Seq<char>) -> Seq<char> {
    if listed_referer(tracks, url).len() == 0 {
        fallback_referer(url)
    } else {
        listed_referer(tracks, url)
    }
}

/// The referer to use for an address.
pub fn referer_for(url: &str, tracks: &[NetplayTrack]) -> (r: String)
    ensures
        r@ == referer_of(tracks_of(tracks@), url@),
{
    let ghost all = tracks_of(tracks@);
    let mut i: usize = 0;
    assert(all.skip(0) =~= all);
    while i < tracks.len()
        invariant
            i <= tracks@.len(),
            all == tracks_of(tracks@),
            listed_referer(all, url@) == listed_referer(all.skip(i as int), url@),
        decreases tracks.len() - i,
    {
        assert(all.skip(i as int)[0] == tracks@[i as int]@);
        assert(all.skip(i as int).skip(1) =~= all.skip(i + 1));
        if text::same_text(tracks[i].url.as_str(), url) {
            if tracks[i].referer.as_str().is_empty() {
                return default_referer(url);
            }
            return tracks[i].referer.as_str().to_owned();
        }
        i += 1;
    }
    default_referer(url)
}

pub open spec fn track_json(t: Track) -> Seq<char> {
    "{\"url\":\""@ + json::escaped(t.url, true) + "\",\"title\":\""@ + json::escaped(t.title, true)
        + "\",\"referer\":\""@ + json::escaped(t.referer, true) + "\"}"@
}

pub open spec fn tracks_json(tracks: Seq<Track>) -> Seq<char>
    decreases tracks.len(),
{
    if tracks.len() == 0 {
        Seq::empty()
    } else if tracks.len() == 1 {
        track_json(tracks[0])
    } else {
        tracks_json(tracks.drop_last()) + ","@ + track_json(tracks.last())
    }
}

fn one_json(t: &NetplayTrack) -> (r: String)
    ensures
        r@ == track_json(t@),
{
    let mut s = "{\"url\":\"".to_owned();
    s.append(json::json_escape(t.url.as_str()).as_str());
    s.append("\",\"title\":\"");
    s.append(json::json_escape(t.title.as_str()).as_str());
    s.append("\",\"referer\":\"");
    s.append(json::json_escape(t.referer.as_str()).as_str());
    s.append("\"}");
    s
}

/// The list as the screen gets it.
pub fn netplay_json(tracks: &[NetplayTrack]) -> (r: String)
    ensures
        r@ == "["@ + tracks_json(tracks_of(tracks@)) + "]"@,
{
    let ghost all = tracks_of(tracks@);
    let mut body = String::new();
    let mut i: usize = 0;
    assert(all.take(0) =~= Seq::empty());
    assert(body@ =~= Seq::empty());
    while i < tracks.len()
        invariant
            i <= tracks@.len(),
            all == tracks_of(tracks@),
            body@ == tracks_json(all.take(i as int)),
        decreases tracks.len() - i,
    {
        assert(all.take(i + 1).drop_last() =~= all.take(i as int));
        assert(all.take(i + 1).last() == tracks@[i as int]@);
        let one = one_json(&tracks[i]);
        if i > 0 {
            body.append(",");
            body.append(one.as_str());
        } else {
            assert(body@ =~= Seq::empty());
            body = one;
        }
        i += 1;
    }
    assert(all.take(i as int) =~= all);
    let mut s = "[".to_owned();
    s.append(body.as_str());
    s.append("]");
    s
}

// ------------------------------------------------------------------------ laws

/// Merging keeps what was there, in place.
pub proof fn law_merge_keeps_first(tracks: Seq<Track>, more: Seq<Track>)
    ensures
        merged(tracks, more).len() >= tracks.len(),
        merged(tracks, more).take(tracks.len() as int) == tracks,
    decreases more.len(),
{
    if more.len() > 0 {
        law_merge_keeps_first(tracks, more.drop_last());
        let front = merged(tracks, more.drop_last());
        assert(front.push(more.last()).take(tracks.len() as int) =~= front.take(
            tracks.len() as int,
        ));
    } else {
        assert(tracks.take(tracks.len() as int) =~= tracks);
    }
}

/// Whatever either list names can be found in the merged one.
pub proof fn law_merge_has_all(tracks: Seq<Track>, more: Seq<Track>, i: int)
    requires
        0 <= i < more.len(),
    ensures
        has_url(merged(tracks, more), more[i].url),
    decreases more.len(),
{
    let front = merged(tracks, more.drop_last());
    if i < more.len() - 1 {
        law_merge_has_all(tracks, more.drop_last(), i);
        let k = choose|k: int| 0 <= k < front.len() && (#[trigger] front[k]).url == more[i].url;
        assert(merged(tracks, more)[k].url == more[i].url);
    } else if !has_url(front, more.last().url) {
        assert(merged(tracks, more)[front.len() as int].url == more[i].url);
    }
}

proof fn lemma_with_block_web(tracks: Seq<Track>, block: Seq<Seq<char>>)
    requires
        forall|i: int| 0 <= i < tracks.len() ==> resolve::is_web_address((#[trigger] tracks[i]).url),
    ensures
        forall|i: int|
            0 <= i < with_block(tracks, block).len() ==> resolve::is_web_address(
                (#[trigger] with_block(tracks, block)[i]).url,
            ),
{
}

proof fn lemma_lines_web(lines: Seq<Seq<char>>)
    ensures
        forall|i: int|
            0 <= i < read_lines(lines).0.len() ==> resolve::is_web_address(
                (#[trigger] read_lines(lines).0[i]).url,
            ),
    decreases lines.len(),
{
    if lines.len() > 0 {
        lemma_lines_web(lines.drop_last());
        let (tracks, block) = read_lines(lines.drop_last());
        lemma_with_block_web(tracks, block);
        lemma_with_block_web(tracks, block.push(text::trimmed(lines.last())));
    }
}

/// Every track of `netplay.url` has a web address.
pub proof fn law_netplay_tracks_are_web(s: Seq<char>)
    ensures
        forall|i: int|
            0 <= i < netplay_of(s).len() ==> resolve::is_web_address(
                (#[trigger] netplay_of(s)[i]).url,
            ),
{
    let (tracks, block) = read_lines(text::lines_of(s));
    lemma_lines_web(text::lines_of(s));
    lemma_with_block_web(tracks, block);
}

} // verus!
