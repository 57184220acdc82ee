//! What the listener can count on, over what the deck is asked and told.

use vstd::prelude::*;
use crate::deck;
use crate::deck::AppEvent;
use crate::deck::Deck;
use crate::deck::DeckView;
use crate::deck::Play;
use crate::deck::Resume;
use crate::deck::StartAction;
use crate::deck::StartEvent;
use crate::deck::Watchdog;
use crate::decoder;
use crate::json;
use crate::tags::laws;
use crate::text;
use crate::text_laws;

verus! {

// ------------------------------------------------------------------- formats

/// A name with an ending in any case of its letters.
pub open spec fn has_ending(path: Seq<char>, ending: Seq<char>) -> bool {
    exists|name: Seq<char>, own: Seq<char>|
        path == #[trigger] (name + own) && own.len() == ending.len() && forall|i: int|
            0 <= i < own.len() ==> own[i] == #[trigger] ending[i] || (97 <= ending[i] as u32 <= 122
                && own[i] as u32 == ending[i] as u32 - 32)
}

proof fn lemma_ending(path: Seq<char>, ending: Seq<char>)
    requires
        has_ending(path, ending),
        forall|i: int| 0 <= i < ending.len() ==> !(65 <= (#[trigger] ending[i]) as u32 <= 90),
    ensures
        deck::ends_ignoring_case(path, ending),
{
    let (name, own) = choose|name: Seq<char>, own: Seq<char>|
        path == #[trigger] (name + own) && own.len() == ending.len() && forall|i: int|
            0 <= i < own.len() ==> own[i] == #[trigger] ending[i] || (97 <= ending[i] as u32 <= 122
                && own[i] as u32 == ending[i] as u32 - 32);
    let tail = path.skip(path.len() - ending.len());
    assert(tail =~= own);
    assert forall|i: int| 0 <= i < tail.len() implies text::ascii_lower(#[trigger] tail[i])
        == text::ascii_lower(ending[i]) by {
        text_laws::law_only_capitals_are_lowered(tail[i]);
        text_laws::law_only_capitals_are_lowered(ending[i]);
        lemma_same_code(text::ascii_lower(tail[i]), text::ascii_lower(ending[i]));
    }
}

proof fn lemma_same_code(a: char, b: char)
    ensures
        a as u32 == b as u32 ==> a == b,
{
}

/// The system plays what it decodes itself, by the ending of the name in any
/// case: MP3, M4A, AAC, ATRAC9 and WAV.
pub proof fn law_shell_plays_its_formats(path: Seq<char>)
    requires
        has_ending(path, ".mp3"@) || has_ending(path, ".m4a"@) || has_ending(path, ".aac"@)
            || has_ending(path, ".at9"@) || has_ending(path, ".wav"@),
    ensures
        deck::shell_decodes(path),
{
    reveal_strlit(".mp3");
    reveal_strlit(".m4a");
    reveal_strlit(".aac");
    reveal_strlit(".at9");
    reveal_strlit(".wav");
    if has_ending(path, ".mp3"@) {
        lemma_ending(path, ".mp3"@);
    } else if has_ending(path, ".m4a"@) {
        lemma_ending(path, ".m4a"@);
    } else if has_ending(path, ".aac"@) {
        lemma_ending(path, ".aac"@);
    } else if has_ending(path, ".at9"@) {
        lemma_ending(path, ".at9"@);
    } else {
        lemma_ending(path, ".wav"@);
    }
}

/// What the system decodes goes to the shell first; FLAC, Vorbis and Opus are
/// decoded here; without a name there is nothing to play.
pub proof fn law_play_chooses_by_the_name(d: Deck, path: &str, r: Play, name: Seq<char>)
    requires
        call_ensures(Deck::play, (&d, path), r),
    ensures
        path@.len() == 0 ==> r == Play::Nothing,
        has_ending(path@, ".mp3"@) || has_ending(path@, ".m4a"@) || has_ending(path@, ".wav"@)
            || has_ending(path@, ".aac"@) || has_ending(path@, ".at9"@) ==> r == Play::Shell,
        path@ == name + ".flac"@ || path@ == name + ".ogg"@ || path@ == name + ".opus"@ ==> r
            == Play::Pump,
{
    let p = path@;
    reveal_strlit(".mp3");
    reveal_strlit(".m4a");
    reveal_strlit(".aac");
    reveal_strlit(".at9");
    reveal_strlit(".wav");
    reveal_strlit(".flac");
    reveal_strlit(".ogg");
    reveal_strlit(".opus");
    if has_ending(p, ".mp3"@) || has_ending(p, ".m4a"@) || has_ending(p, ".wav"@) || has_ending(
        p,
        ".aac"@,
    ) || has_ending(p, ".at9"@) {
        law_shell_plays_its_formats(p);
        lemma_ending_is_long(p);
    }
    lemma_last_letters(p, ".mp3"@);
    lemma_last_letters(p, ".m4a"@);
    lemma_last_letters(p, ".at9"@);
    lemma_last_letters(p, ".wav"@);
    lemma_last_letters(p, ".aac"@);
    if p == name + ".flac"@ {
        assert(p[p.len() - 1] == 'c' && p[p.len() - 3] == 'l');
    }
    if p == name + ".ogg"@ {
        assert(p[p.len() - 1] == 'g');
    }
    if p == name + ".opus"@ {
        assert(p[p.len() - 1] == 's');
    }
}

proof fn lemma_ending_is_long(path: Seq<char>)
    requires
        deck::shell_decodes(path),
    ensures
        path.len() > 0,
{
    reveal_strlit(".mp3");
    reveal_strlit(".m4a");
    reveal_strlit(".aac");
    reveal_strlit(".at9");
    reveal_strlit(".wav");
}

proof fn lemma_last_letters(path: Seq<char>, ending: Seq<char>)
    requires
        ending.len() == 4,
    ensures
        deck::ends_ignoring_case(path, ending) ==> path.len() >= 4 && text::ascii_lower(
            path[path.len() - 1],
        ) == text::ascii_lower(ending[3]) && text::ascii_lower(path[path.len() - 3])
            == text::ascii_lower(ending[1]),
{
    if deck::ends_ignoring_case(path, ending) {
        let tail = path.skip(path.len() - 4);
        assert(tail[3] == path[path.len() - 1]);
        assert(tail[1] == path[path.len() - 3]);
    }
}

// -------------------------------------------------------------------- wishes

/// Pausing the pump and resuming it goes on where it stood.
pub proof fn law_resume_undoes_pause(d: &mut Deck, told: bool, e: &mut Deck, path: &str, r: Resume)
    requires
        call_ensures(Deck::pause, (d,), told),
        call_ensures(Deck::resume, (e, path), r),
        e@ == final(d)@,
        d@.worker,
        d@.playing,
        !d@.paused,
        !d@.active,
    ensures
        !told,
        final(d)@.paused,
        r == Resume::Continued,
        final(e)@ == old(d)@,
{
}

/// A pause of the shell's track tells the shell and gives the port back; resuming
/// makes the shell play the same track on.
pub proof fn law_shell_pause_and_resume(
    d: &mut Deck,
    told: bool,
    e: &mut Deck,
    path: &str,
    r: Resume,
)
    requires
        call_ensures(Deck::pause, (d,), told),
        call_ensures(Deck::resume, (e, path), r),
        e@ == final(d)@,
        d@.active,
    ensures
        told,
        !final(d)@.want_play,
        !final(d)@.holding,
        final(d)@.path == old(d)@.path,
        final(d)@.shell_pos_ms == old(d)@.shell_pos_ms,
        r == Resume::Shell,
        final(e)@.want_play,
        final(e)@.active,
        final(e)@.path == old(d)@.path,
        final(e)@.shell_pos_ms == old(d)@.shell_pos_ms,
{
}

/// A stopped deck is silent and stands at its beginning, and the pump is told to
/// leave.
pub proof fn law_stop_is_silence(d: &mut Deck, told: bool)
    requires
        call_ensures(Deck::stop, (d,), told),
    ensures
        told == old(d)@.active,
        !final(d)@.playing,
        !final(d)@.paused,
        !final(d)@.active,
        final(d)@.stop,
        final(d)@.pos_ms == 0,
        !final(d)@.sounding(),
        final(d)@.path == old(d)@.path,
{
}

/// Without a paused pump or a track of the shell, resuming plays the path anew
/// where there is one, and changes nothing itself.
pub proof fn law_resume_without_a_session(d: &mut Deck, path: &str, r: Resume)
    requires
        call_ensures(Deck::resume, (d, path), r),
        !d@.active,
        !(d@.worker && d@.paused),
    ensures
        r == (if path@.len() > 0 {
            Resume::Restart
        } else {
            Resume::Nothing
        }),
        final(d)@ == old(d)@,
{
}

/// The system stays awake while something is heard, and only then.
pub proof fn law_awake_while_sounding(d: Deck, r: bool)
    requires
        call_ensures(Deck::keeps_awake, (&d,), r),
    ensures
        d@.playing && !d@.paused ==> r,
        d@.active && d@.want_play ==> r,
        !d@.playing && !d@.active ==> !r,
        d@.paused && !(d@.active && d@.want_play) ==> !r,
        d@.active && !d@.want_play && !d@.playing ==> !r,
{
}

/// A power event makes a wanted track play on; no event makes an unwanted one.
pub proof fn law_power_event(d: Deck, info: u32, r: bool)
    requires
        call_ensures(Deck::power_event, (&d, info), r),
    ensures
        r ==> d@.want_play && info != 0,
        d@.want_play && info != 0 ==> r,
{
}

// ---------------------------------------------------------------------- pump

/// A pump that begins plays at the ring's rate from the beginning; at its end it
/// stands at the duration, unless it was stopped or paused on the way.
pub proof fn law_pump_begins_and_ends(
    d: &mut Deck,
    dur: u32,
    e: &mut Deck,
    to_the_end: bool,
    whole: u32,
)
    requires
        call_ensures(Deck::pump_started, (d, dur), ()),
        call_ensures(Deck::pump_finished, (e, to_the_end, whole), ()),
    ensures
        final(d)@.rate_hz == 44100,
        final(d)@.dur_ms == dur,
        final(d)@.pos_ms == 0,
        final(d)@.playing,
        !final(d)@.paused,
        final(d)@.path == old(d)@.path,
        !final(e)@.playing,
        to_the_end && !old(e)@.stop && !old(e)@.paused ==> final(e)@.pos_ms == whole,
        !to_the_end || old(e)@.stop || old(e)@.paused ==> final(e)@.pos_ms == old(e)@.pos_ms,
        final(e)@.path == old(e)@.path,
{
}

/// A new pump tells the last one to leave, waits for it at most fifty times, and
/// then goes on with its own path.
pub proof fn law_pumps_follow_each_other(
    d: &mut Deck,
    e: Deck,
    waited: u32,
    waits: bool,
    f: &mut Deck,
    path: &str,
)
    requires
        call_ensures(Deck::spawn_begin, (d,), ()),
        call_ensures(Deck::spawn_waits, (&e, waited), waits),
        call_ensures(Deck::spawn_ready, (f, path), ()),
    ensures
        final(d)@.stop,
        final(d)@.path == old(d)@.path,
        waits ==> e@.worker,
        waited >= 50 ==> !waits,
        waited < 50 && e@.worker ==> waits,
        !final(f)@.stop,
        final(f)@.worker,
        final(f)@.path == path@,
{
}

// --------------------------------------------------------------------- shell

/// A report of the shell: its state and its time stand in the answer as words of
/// four bytes, the lowest first.
pub open spec fn status_answer(
    front: Seq<u8>,
    state: nat,
    middle: Seq<u8>,
    time: nat,
    rest: Seq<u8>,
) -> Seq<u8> {
    front + laws::little_endian(state) + middle + laws::little_endian(time) + rest
}

proof fn lemma_word(before: Seq<u8>, n: nat, rest: Seq<u8>)
    requires
        n < 0x1_0000_0000,
    ensures
        laws::little_endian(n).len() == 4,
        deck::word_at(before + laws::little_endian(n) + rest, before.len() as int) == n,
{
    laws::law_numbers_read_back(n, Seq::empty());
    let w = laws::little_endian(n);
    assert(w.len() == 4) by {
        reveal(laws::little_endian);
    }
    assert(w + Seq::<u8>::empty() =~= w);
    let s = before + w + rest;
    let k = before.len() as int;
    assert(s[k] == w[0] && s[k + 1] == w[1] && s[k + 2] == w[2] && s[k + 3] == w[3]);
}

/// A shell that plays is followed; one that stands at zero near the end of the
/// track has played it out; any other is told to play on as long as the listener
/// wants it.
pub proof fn law_report_is_followed(
    d: &mut Deck,
    answer: &[u8],
    r: bool,
    front: Seq<u8>,
    state: nat,
    middle: Seq<u8>,
    time: nat,
    rest: Seq<u8>,
)
    requires
        answer@ == status_answer(front, state, middle, time, rest),
        front.len() == 16,
        middle.len() == 24,
        rest.len() >= 64,
        state < 0x8000_0000,
        time < 0x1_0000_0000,
        call_ensures(Deck::shell_audio_poll, (d, 0, answer), r),
        d@.session is Some,
    ensures
        final(d)@.shell_state == state,
        state == 1 ==> !r && final(d)@.shell_pos_ms == time && !final(d)@.ended,
        state != 1 && time > 0 ==> r == old(d)@.want_play && final(d)@.shell_pos_ms == time
            && final(d)@.ended == old(d)@.ended,
        state != 1 && time == 0 && old(d)@.dur_ms > 0 && old(d)@.dur_ms - old(d)@.shell_pos_ms
            <= 1000 ==> !r && final(d)@.ended && final(d)@.shell_pos_ms == old(d)@.shell_pos_ms,
        state != 1 && time == 0 && (old(d)@.dur_ms == 0 || old(d)@.dur_ms - old(d)@.shell_pos_ms
            > 1000) ==> r == old(d)@.want_play && final(d)@.ended == old(d)@.ended
            && final(d)@.shell_pos_ms == old(d)@.shell_pos_ms,
        final(d)@.path == old(d)@.path,
        final(d)@.dur_ms == old(d)@.dur_ms,
        final(d)@.want_play == old(d)@.want_play,
{
    let w = laws::little_endian(state);
    let t = laws::little_endian(time);
    lemma_word(front, state, middle + t + rest);
    assert(answer@ =~= front + w + (middle + t + rest));
    lemma_word(front + w + middle, time, rest);
    assert(answer@ =~= (front + w + middle) + t + rest);
    assert((front + w + middle).len() == 0x2C);
    assert(answer@.len() >= deck::STATUS_BYTES);
    lemma_small_state(state);
}

proof fn lemma_small_state(n: nat)
    requires
        n < 0x8000_0000,
    ensures
        (n as u32) as i32 == n,
{
}

/// The duration of a track stands in the shell's answer behind eight bytes; a
/// refusal says nothing.
pub proof fn law_duration_is_read(
    ret: i32,
    answer: &[u8],
    r: u32,
    front: Seq<u8>,
    dur: nat,
    rest: Seq<u8>,
)
    requires
        answer@ == front + laws::little_endian(dur) + rest,
        front.len() == 8,
        dur < 0x1_0000_0000,
        call_ensures(deck::shell_audio_duration, (ret, answer), r),
    ensures
        ret == 0 ==> r == dur,
        ret != 0 ==> r == 0,
{
    lemma_word(front, dur, rest);
    assert(answer@.len() >= 12);
}

/// A track that the shell takes plays from its beginning with its duration, and
/// is polled twenty times at most.
pub proof fn law_taken_track_plays_from_its_beginning(d: DeckView, dur: u32)
    ensures
        d.shell_opened(dur).active,
        d.shell_opened(dur).want_play,
        d.shell_opened(dur).shell_pos_ms == 0,
        d.shell_opened(dur).dur_ms == dur,
        d.shell_opened(dur).shell_state == 1,
        !d.shell_opened(dur).ended,
        d.shell_opened(dur).polls_left == 20,
        d.shell_opened(dur).path == d.path,
        d.shell_opened(dur).sounding(),
        !d.shell_stopped().active,
        d.active ==> !d.shell_stopped().want_play,
{
}

/// What the interface reads of a track that the shell plays, and of one that is
/// decoded here.
pub proof fn law_state_is_told(d: DeckView)
    ensures
        d.active ==> d.told() == "{\"playing\":"@ + (if d.shell_state == 1 && !d.ended {
            "true"@
        } else {
            "false"@
        }) + ",\"paused\":"@ + (if d.shell_state != 1 && !d.ended {
            "true"@
        } else {
            "false"@
        }) + ",\"path\":\""@ + json::escaped(d.path, true) + "\",\"pos\":"@ + text::dec_text(
            (if d.ended {
                d.dur_ms
            } else {
                d.shell_pos_ms
            }) as nat,
        ) + ",\"dur\":"@ + text::dec_text(d.dur_ms as nat) + ",\"rate\":"@ + text::dec_text(44100)
            + ",\"dec\":\""@ + "shell"@ + "\"}"@,
        !d.active ==> d.told() == "{\"playing\":"@ + (if d.playing && !d.paused {
            "true"@
        } else {
            "false"@
        }) + ",\"paused\":"@ + (if d.paused {
            "true"@
        } else {
            "false"@
        }) + ",\"path\":\""@ + json::escaped(d.path, true) + "\",\"pos\":"@ + text::dec_text(
            d.pos_ms as nat,
        ) + ",\"dur\":"@ + text::dec_text(d.dur_ms as nat) + ",\"rate\":"@ + text::dec_text(
            d.rate_hz as nat,
        ) + ",\"dec\":\""@ + deck::decoding_text(d.decoding) + "\"}"@,
        deck::decoding_text(deck::Decoding::Software) == "sw"@,
        deck::decoding_text(deck::Decoding::Hardware) == "hw"@,
        deck::decoding_text(deck::Decoding::Plain) == "pcm"@,
{
}

// ------------------------------------------------------------------ watchdog

/// The system's events by their numbers; of unknown ones the first ten are told.
pub proof fn law_events_are_told_apart(w: &mut Watchdog, event: i32, r: AppEvent)
    requires
        call_ensures(Watchdog::app_event, (w, event), r),
    ensures
        event == 0x20000001 <==> r == AppEvent::Quit,
        event == 0x10000002 <==> r == AppEvent::Deactivated,
        event == 0x10000001 <==> r == AppEvent::Activated,
        r == AppEvent::Unknown ==> old(w).unknown() < 10 && final(w).unknown() == old(w).unknown()
            + 1,
        r != AppEvent::Unknown ==> final(w).unknown() == old(w).unknown(),
        r == AppEvent::Ignored ==> old(w).unknown() >= 10,
{
}

/// A session of the shell ends once; its ids go with the last word.
pub proof fn law_shell_session_ends_once(
    a: &mut Deck,
    b: &mut Deck,
    last: Option<(i32, i32)>,
    again: Option<(i32, i32)>,
    ids: Option<(i32, i32)>,
)
    requires
        call_ensures(Deck::shell_ctx, (&*a,), ids),
        call_ensures(Deck::shell_audio_terminate, (a,), last),
        call_ensures(Deck::shell_audio_terminate, (b,), again),
        b@ == final(a)@,
    ensures
        ids == old(a)@.session,
        last == ids,
        final(a)@.session is None,
        again is None,
        final(a)@.playing == old(a)@.playing,
        final(a)@.path == old(a)@.path,
{
}

/// The path, the position, the end of a thread and a failed start are noted, and
/// nothing else changes.
pub proof fn law_deck_notes(
    a: &mut Deck,
    path: &str,
    b: &mut Deck,
    ms: u32,
    c: &mut Deck,
    d: &mut Deck,
)
    requires
        call_ensures(Deck::set_path, (a, path), ()),
        call_ensures(Deck::set_pos, (b, ms), ()),
        call_ensures(Deck::worker_done, (c,), ()),
        call_ensures(Deck::pump_failed, (d,), ()),
    ensures
        final(a)@ == (DeckView { path: path@, ..old(a)@ }),
        final(b)@ == (DeckView { pos_ms: ms, ..old(b)@ }),
        final(c)@ == (DeckView { worker: false, ..old(c)@ }),
        final(d)@ == (DeckView { playing: false, ..old(d)@ }),
{
}

/// The flags are told as they are.
pub proof fn law_flags_are_told(d: &Deck, active: bool, stopped: bool, paused: bool)
    requires
        call_ensures(Deck::shell_is_active, (d,), active),
        call_ensures(Deck::is_stopped, (d,), stopped),
        call_ensures(Deck::is_paused, (d,), paused),
    ensures
        active == d@.active,
        stopped == d@.stop,
        paused == d@.paused,
{
}

// -------------------------------------------------------------------- starting

/// A start greets the shell once; its answer opens the session with the two ids
/// that it gave, and a refusal ends the start.
pub proof fn law_start_greets_once(
    a: &mut Deck,
    first: StartAction,
    b: &mut Deck,
    found: bool,
    ret: i32,
    t1: i32,
    t2: i32,
    second: StartAction,
)
    requires
        call_ensures(Deck::shell_audio_start, (a, StartEvent::Begin), first),
        call_ensures(
            Deck::shell_audio_start,
            (b, StartEvent::Service { found, ret, t1, t2 }),
            second,
        ),
        b@.session is None,
    ensures
        old(a)@.session is None ==> first == StartAction::Greet && final(a)@ == old(a)@,
        old(a)@.session is Some && old(a)@.holding ==> first == StartAction::Open,
        old(a)@.session is Some && !old(a)@.holding ==> first == StartAction::AskPort
            && final(a)@.holding,
        found && ret == 0 ==> final(b)@.session == Some((t1, t2)) && final(b)@.holding && (
        second == StartAction::Open || second == StartAction::AskPort),
        !found || ret != 0 ==> second == StartAction::Refused && final(b)@ == old(b)@,
{
}

/// A track is opened once the port was asked for; one that the shell takes is
/// asked for its duration and played, one that it refuses ends the start.
pub proof fn law_start_opens_the_track(
    a: &mut Deck,
    asked: StartAction,
    b: &mut Deck,
    ret: i32,
    opened: StartAction,
    c: &mut Deck,
    dur: u32,
    plays: StartAction,
)
    requires
        call_ensures(Deck::shell_audio_start, (a, StartEvent::PortAsked), asked),
        call_ensures(Deck::shell_audio_start, (b, StartEvent::Track(ret)), opened),
        call_ensures(Deck::shell_audio_start, (c, StartEvent::Duration(dur)), plays),
    ensures
        asked == StartAction::Open,
        final(a)@ == old(a)@,
        ret == 0 ==> opened == StartAction::AskDuration,
        ret != 0 ==> opened == StartAction::Refused,
        final(b)@ == old(b)@,
        plays == StartAction::Play,
        final(c)@.active,
        final(c)@.want_play,
        !final(c)@.ended,
        final(c)@.dur_ms == dur,
        final(c)@.shell_pos_ms == 0,
{
}

/// The shell is polled until it plays; when the polls run out it is given up and
/// its port is free again.
pub proof fn law_start_polls(d: &mut Deck, r: StartAction)
    requires
        call_ensures(Deck::shell_audio_start, (d, StartEvent::Polled), r),
    ensures
        old(d)@.shell_state == deck::MUSIC_PLAY ==> r == StartAction::Done && final(d)@ == old(d)@,
        old(d)@.shell_state != deck::MUSIC_PLAY && old(d)@.polls_left >= 2 ==> r
            == StartAction::Poll && final(d)@.polls_left == old(d)@.polls_left - 1
            && final(d)@.active == old(d)@.active,
        old(d)@.shell_state != deck::MUSIC_PLAY && old(d)@.polls_left <= 1 ==> r
            == StartAction::GiveUp && !final(d)@.active && !final(d)@.holding,
{
}

/// A shell that plays is told to stop, and is no longer wanted; its port is kept.
pub proof fn law_shell_is_stopped(d: &mut Deck, told: bool)
    requires
        call_ensures(Deck::shell_audio_stop, (d,), told),
    ensures
        told == old(d)@.active,
        !final(d)@.active,
        told ==> !final(d)@.want_play,
        !told ==> final(d)@ == old(d)@,
        final(d)@.holding == old(d)@.holding,
        final(d)@.session == old(d)@.session,
{
}

/// The shell's duration counts; where it says none, the file's own does.
pub proof fn law_duration_or_probe(from_shell: u32, rate: i32, frames: i64, r: u32, none: u32)
    requires
        call_ensures(
            deck::shell_audio_duration_or_probe,
            (from_shell, Some((rate, frames))),
            r,
        ),
        call_ensures(deck::shell_audio_duration_or_probe, (from_shell, None), none),
        1 <= rate <= 192000,
        0 <= frames <= 0xffff_ffff,
        frames * 1000 < 0x1_0000_0000 * rate,
    ensures
        from_shell > 0 ==> r == from_shell && none == from_shell,
        from_shell == 0 ==> none == 0,
        from_shell == 0 ==> r * rate <= frames * 1000 < (r + 1) * rate,
{
    decoder::law_frames_in_milliseconds(frames as int, rate as int);
}

/// A new deck is silent and holds nothing.
pub proof fn law_new_deck_is_silent(d: Deck)
    requires
        call_ensures(Deck::new, (), d),
    ensures
        !d@.playing,
        !d@.paused,
        !d@.stop,
        !d@.worker,
        !d@.active,
        !d@.want_play,
        !d@.holding,
        d@.session is None,
        d@.pos_ms == 0,
        d@.dur_ms == 0,
        d@.rate_hz == 44100,
        d@.path.len() == 0,
{
    reveal_strlit("");
}

/// Who decodes is told in short.
pub proof fn law_decoders_have_names()
    ensures
        deck::decoding_text(deck::Decoding::Software) == "sw"@,
        deck::decoding_text(deck::Decoding::Hardware) == "hw"@,
        deck::decoding_text(deck::Decoding::Plain) == "pcm"@,
{
}

/// A refused question after the events is logged once, and unknown events ten
/// times.
pub proof fn law_watchdog_logs_a_few(
    a: &mut Watchdog,
    first: bool,
    b: &mut Watchdog,
    again: bool,
    fresh: Watchdog,
)
    requires
        call_ensures(Watchdog::new, (), fresh),
        call_ensures(Watchdog::event_num_failed, (a,), first),
        call_ensures(Watchdog::event_num_failed, (b,), again),
        b.failed(),
    ensures
        !fresh.failed(),
        fresh.unknown() == 0,
        first == !old(a).failed(),
        final(a).failed(),
        !again,
        deck::MAX_UNKNOWN == 10,
{
}

} // verus!
