//! How a network stream waits, fetches and gives, case by case.

use vstd::prelude::*;
use crate::source::Trouble;
use crate::source::http;
use crate::source::http::Pass;
use crate::source::http::Patience;
use crate::source::http::Stream;

verus! {

/// A new stream stands at its beginning, holds nothing, and asks for the window
/// there.
pub proof fn law_stream_begins_by_asking(url: Seq<char>, size: Option<u64>)
    ensures
        ({
            let s = Stream::opened(url, size);
            &&& s.pos == 0 && s.want_from == 0 && s.pending && !s.running
            &&& s.buf.len() == 0 && !s.eof && s.err is None && !s.cancelled
            &&& s.size == size && s.url == url
        }),
{
}

/// What a fetch got is what the transport read: the first bytes of its buffer, as
/// many as it says, and never more than the buffer holds.
pub proof fn law_fetch_is_what_was_read(from: u64, tmp: Seq<u8>, n: nat, e: Trouble)
    ensures
        n <= tmp.len() && from + n <= u64::MAX ==> http::fetched_part(from, tmp, Ok(n)) == Ok::<
            Seq<u8>,
            Trouble,
        >(tmp.take(n as int)),
        n >= tmp.len() && from + tmp.len() <= u64::MAX ==> http::fetched_part(from, tmp, Ok(n))
            == Ok::<Seq<u8>, Trouble>(tmp),
        n <= tmp.len() && from + n > u64::MAX ==> http::fetched_part(from, tmp, Ok(n)) is Err,
        http::fetched_part(from, tmp, Err(e)) == Err::<Seq<u8>, Trouble>(e),
{
    assert(tmp.take(tmp.len() as int) =~= tmp);
}

/// One request covers 256 KiB: a place in it is not asked for again, the place
/// behind it is.
pub proof fn law_window_covers_a_quarter_mebibyte(s: Stream, at: int)
    requires
        s.running,
    ensures
        s.will_cover(at) <==> 0 <= at - s.want_from < 256 * 1024,
        http::WINDOW_BYTES == 256 * 1024,
{
}

/// A read waits four seconds for bytes on their way, counted from the last that
/// came; it waits for nothing else.
pub proof fn law_reads_wait_four_seconds(
    p: &mut Patience,
    began: u64,
    now_ms: u64,
    n: usize,
    pass: &Pass,
    r: Option<u64>,
)
    requires
        call_ensures(Patience::after_pass, (p, now_ms, n, pass), r),
        p.ends() == http::patient_until(began),
        began <= now_ms <= 0xffff_ffff_0000_0000,
    ensures
        n == 0 && *pass is Wait && now_ms < began + 4000 ==> r == Some(
            (began + 4000 - now_ms) as u64,
        ),
        n == 0 && *pass is Wait && now_ms >= began + 4000 ==> r is None,
        n > 0 && *pass is Wait ==> r == Some(4000u64),
        !(*pass is Wait) ==> r is None,
        n > 0 ==> final(p).ends() == now_ms + 4000,
        n == 0 ==> final(p).ends() == old(p).ends(),
{
}

/// The patience of a read begins with four seconds.
pub proof fn law_patience_begins(now_ms: u64, p: Patience)
    requires
        call_ensures(Patience::new, (now_ms,), p),
    ensures
        now_ms <= 0xffff_ffff_0000_0000 ==> p.ends() == now_ms + 4000,
        p.ends() >= now_ms,
{
}

/// A window that holds what is asked for gives it and moves behind it.
pub proof fn law_window_gives_its_bytes(s: Stream, want: int)
    requires
        s.wf(),
        s.err is None,
        want > 0,
        s.start <= s.pos,
        s.pos + want <= s.start + s.buf.len(),
        s.size matches Some(n) ==> s.pos < n,
    ensures
        s.gives(want) == want,
        s.ends(want) is Full,
        s.given(want).len() == want,
        forall|i: int|
            0 <= i < want ==> #[trigger] s.given(want)[i] == s.buf[s.pos - s.start + i],
        s.passed(want).pos == s.pos + want,
        s.passed(want).buf == s.buf,
        s.passed(want).generation == s.generation,
        s.settled(want, s.ends(want)) == Ok::<nat, Trouble>(want as nat),
{
}

/// A place outside the window has the window asked for there, and the read says
/// to come again.
pub proof fn law_place_outside_is_asked_for(s: Stream, want: int)
    requires
        s.err is None,
        want > 0,
        s.pos < s.start || s.start + s.buf.len() <= s.pos,
        s.size matches Some(n) && s.pos < n || s.size is None,
        !s.eof,
        !s.cancelled,
        !s.pending,
        !s.running,
    ensures
        s.gives(want) == 0,
        s.passed(want).pending,
        s.passed(want).want_from == s.pos,
        s.passed(want).pos == s.pos,
        s.passed(want).generation != s.generation,
        s.settled(0, s.ends(want)) == Err::<nat, Trouble>(Trouble::WouldBlock),
{
}

/// A stream is over at its known length, and there alone; without one where the
/// last fetch found the end.
pub proof fn law_stream_ends_at_its_length(s: Stream, want: int, n: u64)
    requires
        s.err is None,
        want > 0,
    ensures
        s.size == Some(n) ==> (s.over_at(s.pos as int) <==> s.pos >= n),
        s.size == Some(n) && s.pos >= n ==> s.ends(want) is End && s.settled(
            s.gives(want),
            s.ends(want),
        ) == Ok::<nat, Trouble>(0),
        s.size is None && !s.eof ==> !s.over_at(s.pos as int),
        s.size is None && s.eof && s.pos >= s.start + s.buf.len() ==> s.settled(
            s.gives(want),
            s.ends(want),
        ) == Ok::<nat, Trouble>(0),
{
}

/// An error is told by every read that gives nothing, and stays.
pub proof fn law_error_is_told(s: Stream, want: int, e: Trouble, pos: u64)
    requires
        s.err == Some(e),
        want > 0,
    ensures
        s.gives(want) == 0,
        s.settled(0, s.ends(want)) == Err::<nat, Trouble>(e),
        s.passed(want) == s,
        s.primed() == s,
        s.sought(pos).err == Some(e),
{
}

/// What a fetch brings for the current request: its bytes at their place, the end
/// where there are none, or its error.
pub proof fn law_fetch_is_taken_in(s: Stream, from: u64, data: Seq<u8>, e: Trouble)
    requires
        !s.cancelled,
        data.len() > 0,
    ensures
        ({
            let t = s.fetched(from, s.generation, Ok(data));
            t.buf == data && t.start == from && !t.running && !t.pending && t.pos == s.pos && t.eof
                == s.eof && t.err == s.err
        }),
        ({
            let t = s.fetched(from, s.generation, Ok(Seq::empty()));
            t.eof && !t.running && !t.pending && t.buf == s.buf && t.err == s.err
        }),
        ({
            let t = s.fetched(from, s.generation, Err(e));
            t.err == Some(e) && !t.running && !t.pending && t.buf == s.buf && t.eof == s.eof
        }),
{
}

/// A seek inside the window keeps it; one outside asks for the window there.
pub proof fn law_seek_keeps_a_window_that_covers(s: Stream, pos: u64)
    ensures
        s.start <= pos < s.start + s.buf.len() ==> s.sought(pos).buf == s.buf && s.sought(
            pos,
        ).generation == s.generation && s.sought(pos).pending == s.pending,
        !(s.start <= pos < s.start + s.buf.len()) ==> s.sought(pos).pending && s.sought(
            pos,
        ).want_from == pos && s.sought(pos).buf.len() == 0,
        s.sought(pos).pos == pos,
{
}

/// More is asked for ahead of a read at the reading position, unless it is on its
/// way already or nothing more can come.
pub proof fn law_priming(s: Stream)
    ensures
        !s.pending && !s.running && !s.cancelled && s.err is None && !s.eof && s.size is None
            ==> s.primed().pending && s.primed().want_from == s.pos,
        s.pending || s.running || s.cancelled || s.eof ==> s.primed() == s,
        s.size matches Some(n) && s.start <= s.pos && s.start + s.buf.len() >= n ==> s.primed()
            == s,
        s.size matches Some(n) && s.pos < n && s.start + s.buf.len() < n && !s.pending && !s.running
            && !s.cancelled && s.err is None && !s.eof ==> s.primed().want_from == s.pos
            && s.primed().pending,
{
}

} // verus!
