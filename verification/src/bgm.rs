//! The in-process player: one decoder, one background-music port, one thread
//! that alternates between the two. What the thread and the bridge do to the
//! shared state is decided here; the port, the thread and the decoder are not.

use vstd::prelude::*;
use crate::json;
use crate::text;

verus! {

/// Frames in one turn of the audio thread.
pub const AUDIO_FRAMES: i32 = 960;

/// The shared state of the player.
pub struct Player {
    playing: bool,
    paused: bool,
    terminate: bool,
    ready: bool,
    held: bool,
    port: i32,
    port_rate: i32,
    pos_ms: u32,
    dur_ms: u32,
    rate_hz: u32,
    path: String,
}

/// What a [`Player`] holds.
#[verifier::ext_equal]
pub struct PlayerView {
    /// A track is on, be it paused or not.
    pub playing: bool,
    pub paused: bool,
    /// The audio thread is told to leave.
    pub terminate: bool,
    /// The port is open and the thread may use it.
    pub ready: bool,
    /// The system's background-music right has been asked for.
    pub held: bool,
    /// The open port, negative without one.
    pub port: i32,
    pub port_rate: i32,
    pub pos_ms: u32,
    pub dur_ms: u32,
    pub rate_hz: u32,
    pub path: Seq<char>,
}

impl View for Player {
    type V = PlayerView;

    closed spec fn view(&self) -> PlayerView {
        PlayerView {
            playing: self.playing,
            paused: self.paused,
            terminate: self.terminate,
            ready: self.ready,
            held: self.held,
            port: self.port,
            port_rate: self.port_rate,
            pos_ms: self.pos_ms,
            dur_ms: self.dur_ms,
            rate_hz: self.rate_hz,
            path: self.path@,
        }
    }
}

impl PlayerView {
    pub open spec fn fresh() -> PlayerView {
        PlayerView {
            playing: false,
            paused: false,
            terminate: true,
            ready: false,
            held: false,
            port: -1i32,
            port_rate: 0,
            pos_ms: 0,
            dur_ms: 0,
            rate_hz: 44100,
            path: ""@,
        }
    }

    /// Whether the thread asks the decoder for samples. While an online source
    /// has too little buffered, its valve is shut and the decoder is left alone.
    pub open spec fn wants(self, gate_open: bool) -> bool {
        self.playing && !self.paused && gate_open
    }

    /// Whether there is anything to take down.
    pub open spec fn has_session(self) -> bool {
        self.ready || self.port >= 0
    }

    /// The session is told to end.
    pub open spec fn ending(self) -> PlayerView {
        PlayerView { ready: false, terminate: true, ..self }
    }

    /// The thread is gone and the port is given back.
    pub open spec fn ended(self) -> PlayerView {
        PlayerView { port: -1i32, port_rate: 0, ..self }
    }

    /// A track was opened.
    pub open spec fn with_track(self, path: Seq<char>, rate: i32, dur: u32) -> PlayerView {
        PlayerView {
            rate_hz: rate as u32,
            dur_ms: dur,
            pos_ms: 0,
            playing: true,
            paused: false,
            path,
            ..self
        }
    }

    /// A turn of the audio thread: `got` frames were decoded and the decoder now
    /// stands at `position_ms`.
    pub open spec fn after_turn(self, gate_open: bool, got: int, position_ms: u32) -> PlayerView {
        if !self.wants(gate_open) {
            self
        } else if got <= 0 {
            PlayerView { playing: false, pos_ms: self.dur_ms, ..self }
        } else {
            PlayerView { pos_ms: position_ms, ..self }
        }
    }

    /// What the thread plays of a turn: silence, or the decoded frames with
    /// silence where some are missing.
    pub open spec fn heard(self, gate_open: bool, frames: int, got: int, decoded: Seq<i16>) -> Seq<
        i16,
    > {
        if !self.wants(gate_open) || got <= 0 {
            decoded.map_values(|x: i16| 0i16)
        } else {
            decoded.map(
                |i: int, x: i16|
                    if got * 2 <= i < frames * 2 {
                        0i16
                    } else {
                        x
                    },
            )
        }
    }

    pub open spec fn held_back(self) -> PlayerView {
        PlayerView { paused: true, ..self }
    }

    /// A paused session goes on.
    pub open spec fn going_on(self) -> PlayerView {
        PlayerView { paused: false, playing: true, ..self }
    }

    pub open spec fn told(self) -> Seq<char> {
        "{\"playing\":"@ + text::bool_text(self.playing && !self.paused) + ",\"paused\":"@
            + text::bool_text(self.paused) + ",\"path\":\""@ + json::escaped(self.path, true)
            + "\",\"pos\":"@ + text::dec_text(self.pos_ms as nat) + ",\"dur\":"@ + text::dec_text(
            self.dur_ms as nat,
        ) + ",\"rate\":"@ + text::dec_text(self.rate_hz as nat) + ",\"dec\":\"bgm\"}"@
    }
}

/// What a wish to resume comes to.
#[derive(Clone, Copy, Debug, PartialEq, Eq, Structural)]
pub enum Resume {
    /// The track goes on where it stood.
    Continued,
    /// The track has to be played from its beginning.
    Restart,
    Nothing,
}

impl Player {
    pub fn new() -> (r: Self)
        ensures
            r@ == PlayerView::fresh(),
    {
        let r = Player {
            playing: false,
            paused: false,
            terminate: true,
            ready: false,
            held: false,
            port: -1,
            port_rate: 0,
            pos_ms: 0,
            dur_ms: 0,
            rate_hz: 44100,
            path: "".to_owned(),
        };
        assert(r@ =~= PlayerView::fresh());
        r
    }

    /// Asks for the background-music right at the start; the answer says whether
    /// the system has to be asked, which happens once.
    pub fn acquire_on_start(&mut self) -> (r: bool)
        ensures
            r == !old(self)@.held,
            final(self)@ == (PlayerView { held: true, ..old(self)@ }),
    {
        let first = !self.held;
        self.held = true;
        assert(self@ =~= PlayerView { held: true, ..old(self)@ });
        first
    }

    pub fn session_active(&self) -> (r: bool)
        ensures
            r == self@.ready,
    {
        self.ready
    }

    /// Whether the audio thread goes on.
    pub fn thread_goes_on(&self) -> (r: bool)
        ensures
            r == !self@.terminate,
    {
        !self.terminate
    }

    /// The port that samples go to, if they go anywhere.
    pub fn output_port(&self) -> (r: Option<i32>)
        ensures
            r == (if self@.ready && self@.port >= 0 {
                Some(self@.port)
            } else {
                None
            }),
    {
        if self.ready && self.port >= 0 {
            Some(self.port)
        } else {
            None
        }
    }

    /// Whether this turn of the audio thread asks the decoder.
    pub fn wants_samples(&self, gate_open: bool) -> (r: bool)
        ensures
            r == self@.wants(gate_open),
    {
        self.playing && !self.paused && gate_open
    }

    /// Finishes a turn of the audio thread. `buf` holds what the decoder wrote,
    /// `got` how many frames it wrote, `position_ms` where it stands; without a
    /// call of the decoder these say nothing.
    pub fn audio_decode(
        &mut self,
        buf: &mut [i16],
        frames: i32,
        gate_open: bool,
        got: i32,
        position_ms: u32,
    )
        requires
            frames >= 0,
        ensures
            final(self)@ == old(self)@.after_turn(gate_open, got as int, position_ms),
            final(buf)@ == old(self)@.heard(gate_open, frames as int, got as int, old(buf)@),
    {
        let ghost was = old(buf)@;
        let n: usize = buf.len();
        if !self.wants_samples(gate_open) || got <= 0 {
            if self.playing && !self.paused && gate_open {
                self.playing = false;
                self.pos_ms = self.dur_ms;
            }
            silence(buf, 0, n);
            assert(buf@ =~= was.map_values(|x: i16| 0i16));
            assert(self@ =~= old(self)@.after_turn(gate_open, got as int, position_ms));
            return;
        }
        let from: usize = got as usize * 2;
        let upto: usize = frames as usize * 2;
        let to: usize = if upto < n {
            upto
        } else {
            n
        };
        if from < to {
            silence(buf, from, to);
        }
        assert(buf@ =~= old(self)@.heard(gate_open, frames as int, got as int, was));
        self.pos_ms = position_ms;
        assert(self@ =~= old(self)@.after_turn(gate_open, got as int, position_ms));
    }

    fn begin_end(&mut self) -> (r: bool)
        ensures
            r == old(self)@.has_session(),
            final(self)@ == old(self)@.ending(),
    {
        let had = self.ready || self.port >= 0;
        self.ready = false;
        self.terminate = true;
        assert(self@ =~= old(self)@.ending());
        had
    }

    /// The thread has left: gives the port that is to be released.
    pub fn finish_end(&mut self) -> (r: Option<i32>)
        ensures
            r == (if old(self)@.port >= 0 {
                Some(old(self)@.port)
            } else {
                None
            }),
            final(self)@ == old(self)@.ended(),
    {
        let port: i32 = self.port;
        self.port = -1;
        self.port_rate = 0;
        assert(self@ =~= old(self)@.ended());
        if port >= 0 {
            Some(port)
        } else {
            None
        }
    }

    /// Begins to play a file: the running session is told to end, and the answer
    /// says whether there is one to wait for. Without a path nothing happens.
    pub fn play(&mut self, path: &str) -> (r: Option<bool>)
        ensures
            path@.len() == 0 ==> r is None && final(self)@ == old(self)@,
            path@.len() > 0 ==> r == Some(old(self)@.has_session()) && final(self)@
                == old(self)@.ending(),
    {
        if path.is_empty() {
            return None;
        }
        let had = self.begin_end();
        Some(had)
    }

    /// Begins to play an address, in the same way.
    pub fn play_url(&mut self, url: &str) -> (r: Option<bool>)
        ensures
            url@.len() == 0 ==> r is None && final(self)@ == old(self)@,
            url@.len() > 0 ==> r == Some(old(self)@.has_session()) && final(self)@
                == old(self)@.ending(),
    {
        self.play(url)
    }

    /// Takes what opening the track gave, its rate and its duration, and says
    /// with which rate the port is to be opened.
    pub fn opened(&mut self, path: &str, track: Option<(i32, u32)>) -> (r: Option<i32>)
        ensures
            match track {
                None => r is None && final(self)@ == (PlayerView { playing: false, ..old(self)@ }),
                Some((rate, dur)) => r == Some(rate) && final(self)@ == (PlayerView {
                    terminate: false,
                    ready: false,
                    ..old(self)@.with_track(path@, rate, dur)
                }),
            },
    {
        match track {
            None => {
                self.playing = false;
                assert(self@ =~= PlayerView { playing: false, ..old(self)@ });
                None
            },
            Some((rate, dur)) => {
                self.rate_hz = rate as u32;
                self.dur_ms = dur;
                self.pos_ms = 0;
                self.playing = true;
                self.paused = false;
                self.path = path.to_owned();
                self.terminate = false;
                self.ready = false;
                assert(self@ =~= PlayerView {
                    terminate: false,
                    ready: false,
                    ..old(self)@.with_track(path@, rate, dur)
                });
                Some(rate)
            },
        }
    }

    /// Takes what opening the port gave; the answer says whether the thread is to
    /// be started. Without a port nothing plays.
    pub fn port_opened(&mut self, port: i32, rate: i32) -> (r: bool)
        ensures
            r == (port >= 0),
            final(self)@ == (if port >= 0 {
                PlayerView { port, port_rate: rate, ready: true, ..old(self)@ }
            } else {
                PlayerView { terminate: true, playing: false, ..old(self)@ }
            }),
    {
        if port < 0 {
            self.terminate = true;
            self.playing = false;
            assert(self@ =~= PlayerView { terminate: true, playing: false, ..old(self)@ });
            return false;
        }
        self.port = port;
        self.port_rate = rate;
        self.ready = true;
        assert(self@ =~= PlayerView { port, port_rate: rate, ready: true, ..old(self)@ });
        true
    }

    /// The thread could not be started: gives the port that is to be released.
    pub fn thread_failed(&mut self) -> (r: i32)
        ensures
            r == old(self)@.port,
            final(self)@ == (PlayerView {
                ready: false,
                terminate: true,
                port: -1i32,
                playing: false,
                ..old(self)@
            }),
    {
        let port: i32 = self.port;
        self.ready = false;
        self.terminate = true;
        self.port = -1;
        self.playing = false;
        assert(self@ =~= PlayerView {
            ready: false,
            terminate: true,
            port: -1i32,
            playing: false,
            ..old(self)@
        });
        port
    }

    pub fn pause(&mut self)
        ensures
            final(self)@ == old(self)@.held_back(),
    {
        self.paused = true;
        assert(self@ =~= old(self)@.held_back());
    }

    /// Goes on where the track stood if a paused session is there; otherwise the
    /// path, if one is given, is to be played anew.
    pub fn resume(&mut self, path: &str) -> (r: Resume)
        ensures
            old(self)@.ready && old(self)@.paused ==> r == Resume::Continued && final(self)@
                == old(self)@.going_on(),
            !(old(self)@.ready && old(self)@.paused) ==> final(self)@ == old(self)@ && r == (
            if path@.len() > 0 {
                Resume::Restart
            } else {
                Resume::Nothing
            }),
    {
        if self.ready && self.paused {
            self.paused = false;
            self.playing = true;
            assert(self@ =~= old(self)@.going_on());
            return Resume::Continued;
        }
        if path.is_empty() {
            Resume::Nothing
        } else {
            Resume::Restart
        }
    }

    /// Stops: the session is told to end, and the answer says whether there is
    /// one to wait for.
    pub fn stop(&mut self) -> (r: bool)
        ensures
            r == old(self)@.has_session(),
            final(self)@ == (PlayerView { playing: false, paused: false, ..old(self)@.ending() }),
    {
        self.playing = false;
        self.paused = false;
        let had = self.begin_end();
        assert(self@ =~= PlayerView { playing: false, paused: false, ..old(self)@.ending() });
        had
    }

    /// The stopped session is down: the position goes back to the beginning.
    pub fn stopped(&mut self)
        ensures
            final(self)@ == (PlayerView { pos_ms: 0, ..old(self)@ }),
    {
        self.pos_ms = 0;
        assert(self@ =~= PlayerView { pos_ms: 0, ..old(self)@ });
    }

    pub fn state_json(&self) -> (r: String)
        ensures
            r@ == self@.told(),
    {
        let mut s = "{\"playing\":".to_owned();
        s.append(text::yes_no(self.playing && !self.paused));
        s.append(",\"paused\":");
        s.append(text::yes_no(self.paused));
        s.append(",\"path\":\"");
        s.append(json::json_escape(self.path.as_str()).as_str());
        s.append("\",\"pos\":");
        s.append(text::dec(self.pos_ms as u64).as_str());
        s.append(",\"dur\":");
        s.append(text::dec(self.dur_ms as u64).as_str());
        s.append(",\"rate\":");
        s.append(text::dec(self.rate_hz as u64).as_str());
        s.append(",\"dec\":\"bgm\"}");
        s
    }
}

/// Zeroes the samples from `from` to `to`.
fn silence(buf: &mut [i16], from: usize, to: usize)
    requires
        from <= to <= old(buf)@.len(),
    ensures
        final(buf)@ == old(buf)@.map(
            |i: int, x: i16|
                if from <= i < to {
                    0i16
                } else {
                    x
                },
        ),
{
    let mut k: usize = from;
    while k < to
        invariant
            from <= k <= to <= buf@.len(),
            buf@.len() == old(buf)@.len(),
            forall|i: int|
                0 <= i < buf@.len() ==> buf@[i] == (if from <= i < k {
                    0i16
                } else {
                    old(buf)@[i]
                }),
        decreases to - k,
    {
        buf[k] = 0;
        k += 1;
    }
}

/// A paused player is silent, and a turn leaves its state alone.
pub proof fn law_paused_is_silent(
    p: PlayerView,
    gate_open: bool,
    frames: int,
    got: int,
    position_ms: u32,
    decoded: Seq<i16>,
)
    requires
        p.paused,
    ensures
        p.after_turn(gate_open, got, position_ms) == p,
        p.heard(gate_open, frames, got, decoded) == decoded.map_values(|x: i16| 0i16),
{
}

/// A shut valve is never taken for the end of the track: the state stays, and
/// silence is played.
pub proof fn law_waiting_is_not_the_end(
    p: PlayerView,
    frames: int,
    got: int,
    position_ms: u32,
    decoded: Seq<i16>,
)
    ensures
        p.after_turn(false, got, position_ms) == p,
        p.heard(false, frames, got, decoded) == decoded.map_values(|x: i16| 0i16),
{
}

/// At the end of the stream the position reads as the duration and nothing plays
/// any more.
pub proof fn law_end_reads_as_duration(p: PlayerView, got: int, position_ms: u32)
    requires
        p.wants(true),
        got <= 0,
    ensures
        p.after_turn(true, got, position_ms).pos_ms == p.dur_ms,
        !p.after_turn(true, got, position_ms).playing,
{
}

/// Pausing and resuming a session leaves everything as it was; in particular the
/// track does not begin anew.
pub proof fn law_resume_undoes_pause(p: PlayerView)
    requires
        p.ready,
        p.playing,
        !p.paused,
    ensures
        p.held_back().going_on() == p,
{
}

/// What was decoded is heard, frame by frame, and silence follows it to the end of
/// the turn; the position moves on with it.
pub proof fn law_decoded_frames_are_heard(
    p: PlayerView,
    frames: int,
    got: int,
    position_ms: u32,
    decoded: Seq<i16>,
    i: int,
)
    requires
        p.playing,
        !p.paused,
        0 < got <= frames,
        decoded.len() == frames * 2,
        0 <= i < decoded.len(),
    ensures
        p.heard(true, frames, got, decoded).len() == decoded.len(),
        i < got * 2 ==> p.heard(true, frames, got, decoded)[i] == decoded[i],
        i >= got * 2 ==> p.heard(true, frames, got, decoded)[i] == 0,
        p.after_turn(true, got, position_ms).pos_ms == position_ms,
        p.after_turn(true, got, position_ms).playing,
        p.after_turn(true, got, position_ms).path == p.path,
        p.after_turn(true, got, position_ms).dur_ms == p.dur_ms,
{
}

/// A track that was opened plays from its beginning once the port is open; one
/// that could not be opened, or has no port, does not play.
pub proof fn law_opened_track_plays(
    a: &mut Player,
    path: &str,
    track: Option<(i32, u32)>,
    rate: Option<i32>,
    b: &mut Player,
    port: i32,
    port_rate: i32,
    runs: bool,
)
    requires
        call_ensures(Player::opened, (a, path, track), rate),
        call_ensures(Player::port_opened, (b, port, port_rate), runs),
        b@ == final(a)@,
    ensures
        track is None ==> rate is None && !final(a)@.playing,
        track matches Some((hz, dur)) ==> rate == Some(hz) && final(a)@.playing && !final(a)@.paused
            && final(a)@.pos_ms == 0 && final(a)@.dur_ms == dur && final(a)@.path == path@
            && !final(a)@.terminate && !final(a)@.ready,
        runs == (port >= 0),
        port >= 0 ==> final(b)@.ready && final(b)@.port == port && final(b)@.port_rate == port_rate
            && final(b)@.playing == final(a)@.playing && final(b)@.path == final(a)@.path,
        port < 0 ==> !final(b)@.playing && final(b)@.terminate,
{
}

/// A new track ends the session before it, and says whether there is one to wait
/// for; no path changes nothing.
pub proof fn law_new_track_ends_the_last(p: &mut Player, path: &str, r: Option<bool>)
    requires
        call_ensures(Player::play, (p, path), r),
    ensures
        path@.len() == 0 ==> r is None && final(p)@ == old(p)@,
        path@.len() > 0 ==> r == Some(old(p)@.ready || old(p)@.port >= 0) && !final(p)@.ready
            && final(p)@.terminate,
{
}

/// A stopped player is silent; once its thread has left, its port is given back
/// and it stands at the beginning.
pub proof fn law_stopped_player_is_silent(
    a: &mut Player,
    had: bool,
    b: &mut Player,
    port: Option<i32>,
    c: &mut Player,
)
    requires
        call_ensures(Player::stop, (a,), had),
        call_ensures(Player::finish_end, (b,), port),
        call_ensures(Player::stopped, (c,), ()),
        b@ == final(a)@,
        c@ == final(b)@,
    ensures
        had == (old(a)@.ready || old(a)@.port >= 0),
        !final(a)@.playing,
        !final(a)@.paused,
        !final(a)@.ready,
        final(a)@.terminate,
        old(a)@.port >= 0 ==> port == Some(old(a)@.port),
        old(a)@.port < 0 ==> port is None,
        final(b)@.port < 0,
        final(c)@.pos_ms == 0,
{
}

/// Pausing and resuming by themselves, as the listener does them.
pub proof fn law_pause_and_resume(a: &mut Player, b: &mut Player, path: &str, r: Resume)
    requires
        call_ensures(Player::pause, (a,), ()),
        call_ensures(Player::resume, (b, path), r),
        b@ == final(a)@,
        a@.ready,
        a@.playing,
        !a@.paused,
    ensures
        final(a)@.paused,
        final(a)@.pos_ms == old(a)@.pos_ms,
        r == Resume::Continued,
        final(b)@ == old(a)@,
{
}

/// What the interface reads of the player.
pub proof fn law_player_state_is_told(p: PlayerView)
    ensures
        p.told() == "{\"playing\":"@ + (if p.playing && !p.paused {
            "true"@
        } else {
            "false"@
        }) + ",\"paused\":"@ + (if p.paused {
            "true"@
        } else {
            "false"@
        }) + ",\"path\":\""@ + json::escaped(p.path, true) + "\",\"pos\":"@ + text::dec_text(
            p.pos_ms as nat,
        ) + ",\"dur\":"@ + text::dec_text(p.dur_ms as nat) + ",\"rate\":"@ + text::dec_text(
            p.rate_hz as nat,
        ) + ",\"dec\":\"bgm\"}"@,
{
}

/// The right to play in the background is asked for once.
pub proof fn law_right_is_asked_for_once(a: &mut Player, b: &mut Player, first: bool, again: bool)
    requires
        call_ensures(Player::acquire_on_start, (a,), first),
        call_ensures(Player::acquire_on_start, (b,), again),
        b@ == final(a)@,
    ensures
        first <==> !old(a)@.held,
        final(a)@.held,
        !again,
        final(a)@.playing == old(a)@.playing,
        final(a)@.port == old(a)@.port,
{
}

/// Samples go to a port that was opened while the session is up, and nowhere else.
pub proof fn law_samples_go_to_the_port(p: &Player, port: Option<i32>, goes_on: bool, up: bool)
    requires
        call_ensures(Player::output_port, (p,), port),
        call_ensures(Player::thread_goes_on, (p,), goes_on),
        call_ensures(Player::session_active, (p,), up),
    ensures
        up <==> p@.ready,
        port is Some <==> up && p@.port >= 0,
        port matches Some(n) ==> n == p@.port,
        goes_on <==> !p@.terminate,
{
}

/// A thread that could not be started leaves nothing open: its port is given back.
pub proof fn law_failed_thread_gives_its_port_back(p: &mut Player, port: i32)
    requires
        call_ensures(Player::thread_failed, (p,), port),
    ensures
        port == old(p)@.port,
        final(p)@.port == -1,
        !final(p)@.ready,
        final(p)@.terminate,
        !final(p)@.playing,
{
}

/// A track keeps the rate that it was opened with; an address is played as a file
/// is.
pub proof fn law_track_keeps_its_rate(
    a: &mut Player,
    path: &str,
    hz: i32,
    dur: u32,
    rate: Option<i32>,
    b: &mut Player,
    url: &str,
    r: Option<bool>,
    asks: bool,
    gate: bool,
    fresh: Player,
)
    requires
        call_ensures(Player::new, (), fresh),
        call_ensures(Player::opened, (a, path, Some((hz, dur))), rate),
        call_ensures(Player::play_url, (b, url), r),
        call_ensures(Player::wants_samples, (&*b, gate), asks),
        hz >= 0,
    ensures
        final(a)@.rate_hz == hz,
        url@.len() == 0 ==> r is None && final(b)@ == old(b)@,
        url@.len() > 0 ==> r == Some(old(b)@.ready || old(b)@.port >= 0) && !final(b)@.ready
            && final(b)@.terminate && final(b)@.playing == old(b)@.playing,
        asks <==> old(b)@.playing && !old(b)@.paused && gate,
        !fresh@.playing && !fresh@.paused && !fresh@.ready && fresh@.terminate && fresh@.port < 0
            && fresh@.rate_hz == 44100 && fresh@.pos_ms == 0 && fresh@.path.len() == 0,
{
    reveal_strlit("");
}

} // verus!
