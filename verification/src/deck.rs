//! The deck: the state that the shell's player and the software decoder share,
//! and what each wish of the interface does to it.
//!
//! Formats that the system decodes itself are handed to the shell, which goes on
//! playing while the application is in the background. Everything else is
//! decoded here.

use vstd::prelude::*;
use crate::decoder;
use crate::json;
use crate::pump;
use crate::text;

verus! {

/// The shell plays.
pub const MUSIC_PLAY: i32 = 1;

/// The shell stands still.
pub const MUSIC_STOP: i32 = 2;

/// Polls in which the shell must have begun to play.
pub const START_POLLS: u32 = 20;

/// How often a new pump waits for the last one to leave.
pub const SPAWN_WAITS: u32 = 50;

pub const APP_ACTIVATE: i32 = 0x10000001;

pub const APP_DEACTIVATE: i32 = 0x10000002;

pub const APP_QUIT: i32 = 0x20000001;

/// Bytes of the shell's answer on its state.
pub const STATUS_BYTES: usize = 0x70;

/// Bytes of the shell's answer on a track.
pub const TRACK_BYTES: usize = 0x828;

/// Who decodes.
#[derive(Clone, Copy, Debug, PartialEq, Eq, Structural)]
pub enum Decoding {
    Software,
    Hardware,
    Plain,
}

pub open spec fn decoding_text(d: Decoding) -> Seq<char> {
    match d {
        Decoding::Software => "sw"@,
        Decoding::Hardware => "hw"@,
        Decoding::Plain => "pcm"@,
    }
}

pub fn dec_label(d: Decoding) -> (r: &'static str)
    ensures
        r@ == decoding_text(d),
{
    match d {
        Decoding::Software => "sw",
        Decoding::Hardware => "hw",
        Decoding::Plain => "pcm",
    }
}

// ---------------------------------------------------------------------- formats

/// Whether `s` ends in `suffix`, whatever the case of ASCII letters.
pub open spec fn ends_ignoring_case(s: Seq<char>, suffix: Seq<char>) -> bool {
    s.len() >= suffix.len() && text::same_ignoring_ascii_case(
        s.skip(s.len() - suffix.len()),
        suffix,
    )
}

/// Whether the system decodes a file itself, judged by its name.
pub open spec fn shell_decodes(path: Seq<char>) -> bool {
    ends_ignoring_case(path, ".mp3"@) || ends_ignoring_case(path, ".m4a"@) || ends_ignoring_case(
        path,
        ".aac"@,
    ) || ends_ignoring_case(path, ".at9"@) || ends_ignoring_case(path, ".wav"@)
}

fn ends_in(cs: &Vec<char>, suffix: &str) -> (r: bool)
    ensures
        r == ends_ignoring_case(cs@, suffix@),
{
    let pat = text::chars_of(suffix);
    let n: usize = cs.len();
    let k: usize = pat.len();
    if n < k {
        return false;
    }
    let tail = vstd::slice::slice_subrange(cs.as_slice(), n - k, n);
    assert(tail@ =~= cs@.skip(n - k));
    text::eq_ignore_ascii_case(tail, pat.as_slice())
}

pub fn shell_audio_supported(path: &str) -> (r: bool)
    ensures
        r == shell_decodes(path@),
{
    let cs = text::chars_of(path);
    ends_in(&cs, ".mp3") || ends_in(&cs, ".m4a") || ends_in(&cs, ".aac") || ends_in(&cs, ".at9")
        || ends_in(&cs, ".wav")
}

// ---------------------------------------------------------------------- answers

/// The little-endian word at `at`.
pub open spec fn word_at(b: Seq<u8>, at: int) -> int {
    b[at] + b[at + 1] * 0x100 + b[at + 2] * 0x1_0000 + b[at + 3] * 0x100_0000
}

fn word(b: &[u8], at: usize) -> (r: u32)
    requires
        at + 4 <= b@.len(),
    ensures
        r == word_at(b@, at as int),
{
    b[at] as u32 + b[at + 1] as u32 * 0x100 + b[at + 2] as u32 * 0x1_0000 + b[at + 3] as u32
        * 0x100_0000
}

/// The duration in the shell's answer on a track; zero where it refused.
pub fn shell_audio_duration(ret: i32, answer: &[u8]) -> (r: u32)
    requires
        answer@.len() >= 12,
    ensures
        r == (if ret != 0 {
            0
        } else {
            word_at(answer@, 8)
        }),
{
    if ret != 0 {
        return 0;
    }
    word(answer, 8)
}

/// The duration of a track: what the shell says, or what the decoder reads from
/// the file where the shell says nothing.
pub fn shell_audio_duration_or_probe(from_shell: u32, probed: Option<(i32, i64)>) -> (r: u32)
    requires
        match probed {
            Some((rate, frames)) => frames <= decoder::MAX_FRAMES,
            None => true,
        },
    ensures
        r == (if from_shell > 0 {
            from_shell as int
        } else {
            match probed {
                Some((rate, frames)) => decoder::ms_of(
                    decoder::frames_of(Some(frames)),
                    decoder::rate_of(Some(rate)),
                ),
                None => 0,
            }
        }),
{
    if from_shell > 0 {
        return from_shell;
    }
    match probed {
        Some((rate, frames)) => decoder::duration_ms(Some(frames), Some(rate)),
        None => 0,
    }
}

// ------------------------------------------------------------------------- deck

/// The shared state.
pub struct Deck {
    playing: bool,
    paused: bool,
    stop: bool,
    worker: bool,
    pos_ms: u32,
    dur_ms: u32,
    rate_hz: u32,
    decoding: Decoding,
    path: String,
    session: Option<(i32, i32)>,
    active: bool,
    want_play: bool,
    holding: bool,
    ended: bool,
    shell_pos_ms: u32,
    shell_state: i32,
    polls_left: u32,
}

/// What a [`Deck`] holds.
#[verifier::ext_equal]
pub struct DeckView {
    pub playing: bool,
    pub paused: bool,
    /// The pump is told to leave.
    pub stop: bool,
    /// The pump's thread lives.
    pub worker: bool,
    pub pos_ms: u32,
    pub dur_ms: u32,
    pub rate_hz: u32,
    pub decoding: Decoding,
    pub path: Seq<char>,
    /// The ids by which the shell knows this application's session.
    pub session: Option<(i32, i32)>,
    /// The shell plays the track.
    pub active: bool,
    /// The listener wants the shell to play.
    pub want_play: bool,
    /// The background-music port is held.
    pub holding: bool,
    /// The shell has played the track to its end.
    pub ended: bool,
    pub shell_pos_ms: u32,
    pub shell_state: i32,
    /// How often a shell that was told to play is still asked whether it does.
    pub polls_left: u32,
}

impl View for Deck {
    type V = DeckView;

    closed spec fn view(&self) -> DeckView {
        DeckView {
            playing: self.playing,
            paused: self.paused,
            stop: self.stop,
            worker: self.worker,
            pos_ms: self.pos_ms,
            dur_ms: self.dur_ms,
            rate_hz: self.rate_hz,
            decoding: self.decoding,
            path: self.path@,
            session: self.session,
            active: self.active,
            want_play: self.want_play,
            holding: self.holding,
            ended: self.ended,
            shell_pos_ms: self.shell_pos_ms,
            shell_state: self.shell_state,
            polls_left: self.polls_left,
        }
    }
}

impl DeckView {
    pub open spec fn fresh() -> DeckView {
        DeckView {
            playing: false,
            paused: false,
            stop: false,
            worker: false,
            pos_ms: 0,
            dur_ms: 0,
            rate_hz: pump::TARGET_RATE,
            decoding: Decoding::Software,
            path: ""@,
            session: None,
            active: false,
            want_play: false,
            holding: false,
            ended: false,
            shell_pos_ms: 0,
            shell_state: 0,
            polls_left: 0,
        }
    }

    /// The shell took the track.
    pub open spec fn shell_opened(self, dur: u32) -> DeckView {
        DeckView {
            shell_pos_ms: 0,
            shell_state: MUSIC_PLAY,
            ended: false,
            active: true,
            dur_ms: dur,
            want_play: true,
            polls_left: START_POLLS,
            ..self
        }
    }

    /// The shell no longer plays for this application.
    pub open spec fn shell_stopped(self) -> DeckView {
        if self.active {
            DeckView { active: false, want_play: false, ..self }
        } else {
            self
        }
    }

    /// Whether the position is so close to the duration that a shell which stands
    /// at zero has played the track out rather than been interrupted.
    pub open spec fn nearly_over(self) -> bool {
        self.dur_ms > 0 && self.shell_pos_ms + 1000 >= self.dur_ms
    }

    /// What the shell's report does to the state.
    pub open spec fn reported(self, state: i32, time: u32) -> DeckView {
        let now = DeckView { shell_state: state, ..self };
        if state == MUSIC_PLAY {
            DeckView { shell_pos_ms: time, ended: false, ..now }
        } else if time > 0 {
            DeckView { shell_pos_ms: time, ..now }
        } else if self.nearly_over() {
            DeckView { ended: true, ..now }
        } else {
            now
        }
    }

    /// Whether the shell is told to play on: the listener wants it, it does not
    /// play, and the track is not over.
    pub open spec fn prods(self, state: i32, time: u32) -> bool {
        state != MUSIC_PLAY && self.want_play && (time > 0 || !self.nearly_over())
    }

    /// Something is heard, be it from the shell or from the pump.
    pub open spec fn sounding(self) -> bool {
        (self.active && self.want_play) || (self.playing && !self.paused)
    }

    pub open spec fn told(self) -> Seq<char> {
        if self.active {
            let plays = self.shell_state == MUSIC_PLAY;
            state_text(
                plays && !self.ended,
                !plays && !self.ended,
                self.path,
                if self.ended {
                    self.dur_ms
                } else {
                    self.shell_pos_ms
                },
                self.dur_ms,
                pump::TARGET_RATE,
                "shell"@,
            )
        } else {
            state_text(
                self.playing && !self.paused,
                self.paused,
                self.path,
                self.pos_ms,
                self.dur_ms,
                self.rate_hz,
                decoding_text(self.decoding),
            )
        }
    }
}

/// The state as the interface reads it.
pub open spec fn state_text(
    playing: bool,
    paused: bool,
    path: Seq<char>,
    pos: u32,
    dur: u32,
    rate: u32,
    dec: Seq<char>,
) -> Seq<char> {
    "{\"playing\":"@ + text::bool_text(playing) + ",\"paused\":"@ + text::bool_text(paused)
        + ",\"path\":\""@ + json::escaped(path, true) + "\",\"pos\":"@ + text::dec_text(pos as nat)
        + ",\"dur\":"@ + text::dec_text(dur as nat) + ",\"rate\":"@ + text::dec_text(rate as nat)
        + ",\"dec\":\""@ + dec + "\"}"@
}

fn state_json_of(
    playing: bool,
    paused: bool,
    path: &str,
    pos: u32,
    dur: u32,
    rate: u32,
    dec: &str,
) -> (r: String)
    ensures
        r@ == state_text(playing, paused, path@, pos, dur, rate, dec@),
{
    let mut s = "{\"playing\":".to_owned();
    s.append(text::yes_no(playing));
    s.append(",\"paused\":");
    s.append(text::yes_no(paused));
    s.append(",\"path\":\"");
    s.append(json::json_escape(path).as_str());
    s.append("\",\"pos\":");
    s.append(text::dec(pos as u64).as_str());
    s.append(",\"dur\":");
    s.append(text::dec(dur as u64).as_str());
    s.append(",\"rate\":");
    s.append(text::dec(rate as u64).as_str());
    s.append(",\"dec\":\"");
    s.append(dec);
    s.append("\"}");
    s
}

/// What happened on the way to a track that the shell plays.
#[derive(Clone, Copy, Debug, PartialEq, Eq, Structural)]
pub enum StartEvent {
    /// The track is wished for.
    Begin,
    /// The shell's service was looked for and, if found, greeted; a zero with its
    /// ids is a welcome.
    Service { found: bool, ret: i32, t1: i32, t2: i32 },
    /// The system was asked for the background-music port.
    PortAsked,
    /// The shell was given the track; a zero means that it took it.
    Track(i32),
    /// The duration of the track.
    Duration(u32),
    /// The shell was asked for its state once more.
    Polled,
}

/// What is to be done next.
#[derive(Clone, Copy, Debug, PartialEq, Eq, Structural)]
pub enum StartAction {
    /// Look for the service and greet it.
    Greet,
    /// Ask the system for the background-music port.
    AskPort,
    /// Give the track to the shell.
    Open,
    /// Find the duration.
    AskDuration,
    /// Tell the shell to play, then poll it.
    Play,
    /// Poll the shell once more.
    Poll,
    /// The shell plays: background music is turned on.
    Done,
    /// The shell did not begin: the port is given back and the track decoded here.
    GiveUp,
    /// The shell does not take the track; it is decoded here.
    Refused,
}

impl DeckView {
    /// The next step once a session is there: the port, or the track where the
    /// port is held already.
    pub open spec fn with_session(self) -> (DeckView, StartAction) {
        if self.holding {
            (self, StartAction::Open)
        } else {
            (DeckView { holding: true, ..self }, StartAction::AskPort)
        }
    }

    /// How the start of a track goes on after an event.
    pub open spec fn start_step(self, event: StartEvent) -> (DeckView, StartAction) {
        match event {
            StartEvent::Begin => if self.session is Some {
                self.with_session()
            } else {
                (self, StartAction::Greet)
            },
            StartEvent::Service { found, ret, t1, t2 } => if self.session is Some {
                self.with_session()
            } else if found && ret == 0 {
                (DeckView { session: Some((t1, t2)), ..self }).with_session()
            } else {
                (self, StartAction::Refused)
            },
            StartEvent::PortAsked => (self, StartAction::Open),
            StartEvent::Track(ret) => if ret == 0 {
                (self, StartAction::AskDuration)
            } else {
                (self, StartAction::Refused)
            },
            StartEvent::Duration(dur) => (self.shell_opened(dur), StartAction::Play),
            StartEvent::Polled => if self.shell_state == MUSIC_PLAY {
                (self, StartAction::Done)
            } else if self.polls_left > 1 {
                (
                    DeckView { polls_left: (self.polls_left - 1) as u32, ..self },
                    StartAction::Poll,
                )
            } else {
                (
                    DeckView { polls_left: 0, holding: false, active: false, ..self },
                    StartAction::GiveUp,
                )
            },
        }
    }
}

/// What a wish to play comes to.
#[derive(Clone, Copy, Debug, PartialEq, Eq, Structural)]
pub enum Play {
    Nothing,
    /// Try the shell first.
    Shell,
    /// Decode here.
    Pump,
}

/// What a wish to resume comes to.
#[derive(Clone, Copy, Debug, PartialEq, Eq, Structural)]
pub enum Resume {
    /// The shell is told to play.
    Shell,
    /// The pump goes on where it stood.
    Continued,
    /// The track has to be played from its beginning.
    Restart,
    Nothing,
}

impl Deck {
    pub fn new() -> (r: Self)
        ensures
            r@ == DeckView::fresh(),
    {
        let r = Deck {
            playing: false,
            paused: false,
            stop: false,
            worker: false,
            pos_ms: 0,
            dur_ms: 0,
            rate_hz: pump::TARGET_RATE,
            decoding: Decoding::Software,
            path: "".to_owned(),
            session: None,
            active: false,
            want_play: false,
            holding: false,
            ended: false,
            shell_pos_ms: 0,
            shell_state: 0,
            polls_left: 0,
        };
        assert(r@ =~= DeckView::fresh());
        r
    }

    // ------------------------------------------------------------- the session

    /// The ids that go with every word to the shell; without a session nothing
    /// is said to it.
    pub fn shell_ctx(&self) -> (r: Option<(i32, i32)>)
        ensures
            r == self@.session,
    {
        self.session
    }

    /// Ends the session; the answer holds the ids that the last word goes with.
    pub fn shell_audio_terminate(&mut self) -> (r: Option<(i32, i32)>)
        ensures
            r == old(self)@.session,
            final(self)@ == (DeckView { session: None, ..old(self)@ }),
    {
        let was = self.session;
        self.session = None;
        assert(self@ =~= DeckView { session: None, ..old(self)@ });
        was
    }

    // ---------------------------------------------------------------- the start

    /// Takes the background-music port, unless it is held already: it is kept
    /// from track to track.
    fn take_port(&mut self) -> (r: StartAction)
        ensures
            (final(self)@, r) == old(self)@.with_session(),
    {
        if self.holding {
            return StartAction::Open;
        }
        self.holding = true;
        assert(self@ =~= DeckView { holding: true, ..old(self)@ });
        StartAction::AskPort
    }

    /// A poll on the way: the shell plays, or is polled again, or is given up.
    fn start_polled(&mut self) -> (r: StartAction)
        ensures
            (final(self)@, r) == old(self)@.start_step(StartEvent::Polled),
    {
        if self.shell_state == MUSIC_PLAY {
            return StartAction::Done;
        }
        if self.polls_left > 1 {
            self.polls_left = self.polls_left - 1;
            assert(self@ =~= DeckView {
                polls_left: (old(self)@.polls_left - 1) as u32,
                ..old(self)@
            });
            return StartAction::Poll;
        }
        self.polls_left = 0;
        self.holding = false;
        self.active = false;
        assert(self@ =~= DeckView { polls_left: 0, holding: false, active: false, ..old(self)@ });
        StartAction::GiveUp
    }

    /// One step on the way to a track that the shell plays.
    pub fn shell_audio_start(&mut self, event: StartEvent) -> (r: StartAction)
        ensures
            (final(self)@, r) == old(self)@.start_step(event),
    {
        match event {
            StartEvent::Begin => {
                if self.session.is_some() {
                    self.take_port()
                } else {
                    StartAction::Greet
                }
            },
            StartEvent::Service { found, ret, t1, t2 } => {
                if self.session.is_none() {
                    if !found || ret != 0 {
                        return StartAction::Refused;
                    }
                    self.session = Some((t1, t2));
                    assert(self@ =~= DeckView { session: Some((t1, t2)), ..old(self)@ });
                }
                self.take_port()
            },
            StartEvent::PortAsked => StartAction::Open,
            StartEvent::Track(ret) => {
                if ret == 0 {
                    StartAction::AskDuration
                } else {
                    StartAction::Refused
                }
            },
            StartEvent::Duration(dur) => {
                self.shell_pos_ms = 0;
                self.shell_state = MUSIC_PLAY;
                self.ended = false;
                self.active = true;
                self.dur_ms = dur;
                self.want_play = true;
                self.polls_left = START_POLLS;
                assert(self@ =~= old(self)@.shell_opened(dur));
                StartAction::Play
            },
            StartEvent::Polled => self.start_polled(),
        }
    }

    /// Stops the shell's track; the answer says whether it has to be told. The
    /// port is kept: the next track needs it.
    pub fn shell_audio_stop(&mut self) -> (r: bool)
        ensures
            r == old(self)@.active,
            final(self)@ == old(self)@.shell_stopped(),
    {
        if !self.active {
            return false;
        }
        self.active = false;
        self.want_play = false;
        assert(self@ =~= old(self)@.shell_stopped());
        true
    }

    /// Takes the shell's report on its state; the answer says whether it is told
    /// to play on. A refused question changes nothing.
    pub fn shell_audio_poll(&mut self, ret: i32, answer: &[u8]) -> (r: bool)
        requires
            answer@.len() >= STATUS_BYTES,
        ensures
            old(self)@.session is None || ret != 0 ==> !r && final(self)@ == old(self)@,
            old(self)@.session is Some && ret == 0 ==> ({
                let state = word_at(answer@, 0x10) as u32 as i32;
                let time = word_at(answer@, 0x2C) as u32;
                r == old(self)@.prods(state, time) && final(self)@ == old(self)@.reported(
                    state,
                    time,
                )
            }),
    {
        if self.session.is_none() || ret != 0 {
            return false;
        }
        let state: i32 = word(answer, 0x10) as i32;
        let time: u32 = word(answer, 0x2C);
        let near = self.dur_ms > 0 && self.shell_pos_ms as u64 + 1000 >= self.dur_ms as u64;
        self.shell_state = state;
        if state == MUSIC_PLAY {
            self.shell_pos_ms = time;
            self.ended = false;
            assert(self@ =~= old(self)@.reported(state, time));
            return false;
        }
        if time > 0 {
            self.shell_pos_ms = time;
            assert(self@ =~= old(self)@.reported(state, time));
            return self.want_play;
        }
        if near {
            self.ended = true;
            assert(self@ =~= old(self)@.reported(state, time));
            return false;
        }
        assert(self@ =~= old(self)@.reported(state, time));
        self.want_play
    }

    /// Whether the shell plays for this application, so that it is polled before
    /// the state is told.
    pub fn shell_is_active(&self) -> (r: bool)
        ensures
            r == self@.active,
    {
        self.active
    }

    /// Whether a power event makes the shell play on.
    pub fn power_event(&self, info: u32) -> (r: bool)
        ensures
            r == (info != 0 && self@.want_play),
    {
        info != 0 && self.want_play
    }

    /// Whether the system is kept from suspending.
    pub fn keeps_awake(&self) -> (r: bool)
        ensures
            r == self@.sounding(),
    {
        (self.active && self.want_play) || (self.playing && !self.paused)
    }

    // --------------------------------------------------------------- the wishes

    pub fn play(&self, path: &str) -> (r: Play)
        ensures
            r == (if path@.len() == 0 {
                Play::Nothing
            } else if shell_decodes(path@) {
                Play::Shell
            } else {
                Play::Pump
            }),
    {
        if path.is_empty() {
            Play::Nothing
        } else if shell_audio_supported(path) {
            Play::Shell
        } else {
            Play::Pump
        }
    }

    pub fn set_path(&mut self, path: &str)
        ensures
            final(self)@ == (DeckView { path: path@, ..old(self)@ }),
    {
        self.path = path.to_owned();
        assert(self@ =~= DeckView { path: path@, ..old(self)@ });
    }

    /// Pauses; the answer says whether the shell has to be told and the port to
    /// be given back.
    pub fn pause(&mut self) -> (r: bool)
        ensures
            r == old(self)@.active,
            final(self)@ == (if old(self)@.active {
                DeckView { want_play: false, holding: false, ..old(self)@ }
            } else {
                DeckView { paused: true, ..old(self)@ }
            }),
    {
        if self.active {
            self.want_play = false;
            self.holding = false;
            assert(self@ =~= DeckView { want_play: false, holding: false, ..old(self)@ });
            return true;
        }
        self.paused = true;
        assert(self@ =~= DeckView { paused: true, ..old(self)@ });
        false
    }

    pub fn resume(&mut self, path: &str) -> (r: Resume)
        ensures
            r == (if old(self)@.active {
                Resume::Shell
            } else if old(self)@.worker && old(self)@.paused {
                Resume::Continued
            } else if path@.len() > 0 {
                Resume::Restart
            } else {
                Resume::Nothing
            }),
            final(self)@ == (match r {
                Resume::Shell => DeckView { want_play: true, ..old(self)@ },
                Resume::Continued => DeckView { paused: false, playing: true, ..old(self)@ },
                _ => old(self)@,
            }),
    {
        if self.active {
            self.want_play = true;
            assert(self@ =~= DeckView { want_play: true, ..old(self)@ });
            return Resume::Shell;
        }
        if self.worker && self.paused {
            self.paused = false;
            self.playing = true;
            assert(self@ =~= DeckView { paused: false, playing: true, ..old(self)@ });
            return Resume::Continued;
        }
        if path.is_empty() {
            Resume::Nothing
        } else {
            Resume::Restart
        }
    }

    /// Stops everything; the answer says whether the shell has to be told.
    pub fn stop(&mut self) -> (r: bool)
        ensures
            r == old(self)@.active,
            final(self)@ == (DeckView {
                stop: true,
                paused: false,
                playing: false,
                pos_ms: 0,
                ..old(self)@.shell_stopped()
            }),
    {
        let told = self.shell_audio_stop();
        self.stop = true;
        self.paused = false;
        self.playing = false;
        self.pos_ms = 0;
        assert(self@ =~= DeckView {
            stop: true,
            paused: false,
            playing: false,
            pos_ms: 0,
            ..old(self)@.shell_stopped()
        });
        told
    }

    // ----------------------------------------------------------------- the pump

    /// Tells the pump of the last track to leave.
    pub fn spawn_begin(&mut self)
        ensures
            final(self)@ == (DeckView { stop: true, ..old(self)@ }),
    {
        self.stop = true;
        assert(self@ =~= DeckView { stop: true, ..old(self)@ });
    }

    /// Whether a new pump waits on for the last one, which it was asked to do
    /// `waited` times already: it does not wait for ever.
    pub fn spawn_waits(&self, waited: u32) -> (r: bool)
        ensures
            r == (self@.worker && waited < SPAWN_WAITS),
    {
        self.worker && waited < SPAWN_WAITS
    }

    /// A new pump may begin.
    pub fn spawn_ready(&mut self, path: &str)
        ensures
            final(self)@ == (DeckView { stop: false, worker: true, path: path@, ..old(self)@ }),
    {
        self.stop = false;
        self.worker = true;
        self.path = path.to_owned();
        assert(self@ =~= DeckView { stop: false, worker: true, path: path@, ..old(self)@ });
    }

    /// The pump's thread has ended.
    pub fn worker_done(&mut self)
        ensures
            final(self)@ == (DeckView { worker: false, ..old(self)@ }),
    {
        self.worker = false;
        assert(self@ =~= DeckView { worker: false, ..old(self)@ });
    }

    /// The track could not be opened.
    pub fn pump_failed(&mut self)
        ensures
            final(self)@ == (DeckView { playing: false, ..old(self)@ }),
    {
        self.playing = false;
        assert(self@ =~= DeckView { playing: false, ..old(self)@ });
    }

    /// The pump begins.
    pub fn pump_started(&mut self, dur: u32)
        ensures
            final(self)@ == (DeckView {
                rate_hz: pump::TARGET_RATE,
                dur_ms: dur,
                pos_ms: 0,
                playing: true,
                paused: false,
                ..old(self)@
            }),
    {
        self.rate_hz = pump::TARGET_RATE;
        self.dur_ms = dur;
        self.pos_ms = 0;
        self.playing = true;
        self.paused = false;
        assert(self@ =~= DeckView {
            rate_hz: pump::TARGET_RATE,
            dur_ms: dur,
            pos_ms: 0,
            playing: true,
            paused: false,
            ..old(self)@
        });
    }

    pub fn set_pos(&mut self, ms: u32)
        ensures
            final(self)@ == (DeckView { pos_ms: ms, ..old(self)@ }),
    {
        self.pos_ms = ms;
        assert(self@ =~= DeckView { pos_ms: ms, ..old(self)@ });
    }

    pub fn is_stopped(&self) -> (r: bool)
        ensures
            r == self@.stop,
    {
        self.stop
    }

    pub fn is_paused(&self) -> (r: bool)
        ensures
            r == self@.paused,
    {
        self.paused
    }

    /// The pump leaves. Played to its end, neither stopped nor paused, the
    /// position is set to the duration.
    pub fn pump_finished(&mut self, to_the_end: bool, dur: u32)
        ensures
            final(self)@ == (DeckView {
                playing: false,
                pos_ms: if to_the_end && !old(self)@.stop && !old(self)@.paused {
                    dur
                } else {
                    old(self)@.pos_ms
                },
                ..old(self)@
            }),
    {
        if to_the_end && !self.stop && !self.paused {
            self.pos_ms = dur;
        }
        self.playing = false;
        assert(self@ =~= DeckView {
            playing: false,
            pos_ms: if to_the_end && !old(self)@.stop && !old(self)@.paused {
                dur
            } else {
                old(self)@.pos_ms
            },
            ..old(self)@
        });
    }

    // ---------------------------------------------------------------- the state

    pub fn state_json(&self) -> (r: String)
        ensures
            r@ == self@.told(),
    {
        if self.active {
            let plays = self.shell_state == MUSIC_PLAY;
            let pos: u32 = if self.ended {
                self.dur_ms
            } else {
                self.shell_pos_ms
            };
            return state_json_of(
                plays && !self.ended,
                !plays && !self.ended,
                self.path.as_str(),
                pos,
                self.dur_ms,
                pump::TARGET_RATE,
                "shell",
            );
        }
        state_json_of(
            self.playing && !self.paused,
            self.paused,
            self.path.as_str(),
            self.pos_ms,
            self.dur_ms,
            self.rate_hz,
            dec_label(self.decoding),
        )
    }
}

// ------------------------------------------------------------------ the watchdog

/// What an event of the system comes to.
#[derive(Clone, Copy, Debug, PartialEq, Eq, Structural)]
pub enum AppEvent {
    /// The application is closed: end the shell's session.
    Quit,
    Deactivated,
    Activated,
    /// Unknown; worth a line in the log.
    Unknown,
    /// Unknown, like enough others before it.
    Ignored,
}

/// Unknown events that are logged.
pub const MAX_UNKNOWN: u32 = 10;

/// What the watchdog has logged already.
pub struct Watchdog {
    failure_logged: bool,
    unknown_logged: u32,
}

impl Watchdog {
    pub closed spec fn failed(&self) -> bool {
        self.failure_logged
    }

    pub closed spec fn unknown(&self) -> nat {
        self.unknown_logged as nat
    }

    pub fn new() -> (r: Self)
        ensures
            !r.failed(),
            r.unknown() == 0,
    {
        Watchdog { failure_logged: false, unknown_logged: 0 }
    }

    /// A refused question after the number of events: logged once.
    pub fn event_num_failed(&mut self) -> (r: bool)
        ensures
            r == !old(self).failed(),
            final(self).failed(),
            final(self).unknown() == old(self).unknown(),
    {
        let first = !self.failure_logged;
        self.failure_logged = true;
        first
    }

    pub fn app_event(&mut self, event: i32) -> (r: AppEvent)
        ensures
            r == (if event == APP_QUIT {
                AppEvent::Quit
            } else if event == APP_DEACTIVATE {
                AppEvent::Deactivated
            } else if event == APP_ACTIVATE {
                AppEvent::Activated
            } else if old(self).unknown() < MAX_UNKNOWN {
                AppEvent::Unknown
            } else {
                AppEvent::Ignored
            }),
            final(self).failed() == old(self).failed(),
            final(self).unknown() == old(self).unknown() + (if r == AppEvent::Unknown {
                1nat
            } else {
                0nat
            }),
    {
        if event == APP_QUIT {
            AppEvent::Quit
        } else if event == APP_DEACTIVATE {
            AppEvent::Deactivated
        } else if event == APP_ACTIVATE {
            AppEvent::Activated
        } else if self.unknown_logged < MAX_UNKNOWN {
            self.unknown_logged += 1;
            AppEvent::Unknown
        } else {
            AppEvent::Ignored
        }
    }
}

// ------------------------------------------------------------------------- laws

/// A shell that is interrupted in the middle of a wanted track is told to play
/// on, and the track does not count as over.
pub proof fn law_interruption_is_not_the_end(d: DeckView, state: i32, time: u32)
    requires
        d.want_play,
        state != MUSIC_PLAY,
        time > 0 || !d.nearly_over(),
    ensures
        d.prods(state, time),
        d.reported(state, time).ended == d.ended,
{
}

/// A track that is played out reads as standing at its duration, neither playing
/// nor paused, and the shell is left alone.
pub proof fn law_played_out(d: DeckView, state: i32)
    requires
        d.active,
        state != MUSIC_PLAY,
        d.nearly_over(),
    ensures
        !d.prods(state, 0),
        d.reported(state, 0).told() == state_text(
            false,
            false,
            d.path,
            d.dur_ms,
            d.dur_ms,
            pump::TARGET_RATE,
            "shell"@,
        ),
{
}

/// Changing tracks keeps the background-music port.
pub proof fn law_port_survives_track_change(d: DeckView, dur: u32)
    requires
        d.holding,
    ensures
        d.shell_stopped().holding,
        d.shell_stopped().shell_opened(dur).holding,
{
}

/// A start that is given up leaves the shell idle and the port free; one that is
/// refused changes nothing.
pub proof fn law_failed_start(d: DeckView, event: StartEvent)
    ensures
        d.start_step(event).1 == StartAction::GiveUp ==> !d.start_step(event).0.active
            && !d.start_step(event).0.holding,
        d.start_step(event).1 == StartAction::Refused ==> d.start_step(event).0 == d,
{
}

/// The deck once a shell that does not begin was polled `k` times.
pub open spec fn polled_idle(d: DeckView, k: nat) -> (DeckView, StartAction)
    decreases k,
{
    if k <= 1 {
        d.start_step(StartEvent::Polled)
    } else {
        polled_idle(d, (k - 1) as nat).0.start_step(StartEvent::Polled)
    }
}

proof fn lemma_polled_idle(d: DeckView, k: nat)
    requires
        d.shell_state != MUSIC_PLAY,
        1 <= k <= d.polls_left,
    ensures
        polled_idle(d, k).0.shell_state == d.shell_state,
        k < d.polls_left ==> polled_idle(d, k).1 == StartAction::Poll && polled_idle(d, k).0.polls_left
            == d.polls_left - k,
        k == d.polls_left ==> polled_idle(d, k).1 == StartAction::GiveUp,
    decreases k,
{
    if k > 1 {
        lemma_polled_idle(d, (k - 1) as nat);
    }
}

/// A shell that was told to play and does not begin is given up after exactly so
/// many polls, and not before.
pub proof fn law_start_is_given_up(d: DeckView, dur: u32, state: i32, k: nat)
    requires
        state != MUSIC_PLAY,
        1 <= k <= START_POLLS,
    ensures
        ({
            let told = DeckView { shell_state: state, ..d.shell_opened(dur) };
            polled_idle(told, k).1 == (if k < START_POLLS {
                StartAction::Poll
            } else {
                StartAction::GiveUp
            })
        }),
{
    lemma_polled_idle(DeckView { shell_state: state, ..d.shell_opened(dur) }, k);
}

/// Until the shell has taken the track, nothing of what plays or stands on the
/// deck changes.
pub proof fn law_start_touches_nothing_before_the_track(d: DeckView, event: StartEvent)
    requires
        event !is Duration,
        event !is Polled,
    ensures
        d.start_step(event).0.told() == d.told(),
{
}

} // verus!
