//! The pump between the software decoder and the ring of the audio host: what it
//! does in each turn, where the listener stands, and the conversion to the rate
//! of the ring.

use vstd::prelude::*;
use crate::deck::Deck;
use crate::deck::DeckView;
use crate::decoder;
use crate::text;

verus! {

/// Frames a second of the ring.
pub const TARGET_RATE: u32 = 44100;

/// Frames that are decoded in one turn.
pub const TURN_FRAMES: u64 = 1024;

/// Frames that may be left in the ring when a track counts as played out.
pub const TAIL_FRAMES: u64 = 256;

/// Turns that the pump waits for the ring to run dry.
pub const TAIL_TURNS: u32 = 400;

// --------------------------------------------------------------------- the rate

/// Frames in interleaved samples.
pub open spec fn frame_count(samples: int, ch: u32) -> int {
    if ch == 1 {
        samples
    } else {
        samples / 2
    }
}

pub open spec fn out_count(samples: int, rate: u32, ch: u32) -> int {
    frame_count(samples, ch) * TARGET_RATE / (if rate < 1 {
        1int
    } else {
        rate as int
    })
}

/// The frame that is heard as frame `i` of the output.
pub open spec fn source_frame(i: int, frames: int, rate: u32) -> int {
    let at = i * rate / (TARGET_RATE as int);
    if at < frames {
        at
    } else {
        frames - 1
    }
}

/// The samples at the target rate in stereo: the nearest earlier frame each
/// time, and a single channel on both sides.
pub open spec fn resampled(pcm: Seq<i16>, rate: u32, ch: u32) -> Seq<i16> {
    if pcm.len() == 0 || (rate == TARGET_RATE && ch == 2) {
        pcm
    } else {
        let frames = frame_count(pcm.len() as int, ch);
        Seq::new(
            (out_count(pcm.len() as int, rate, ch) * 2) as nat,
            |k: int|
                if ch == 1 {
                    pcm[source_frame(k / 2, frames, rate)]
                } else {
                    pcm[source_frame(k / 2, frames, rate) * 2 + k % 2]
                },
        )
    }
}

pub fn resample_stereo(pcm: &[i16], rate: u32, ch: u32) -> (r: Vec<i16>)
    requires
        pcm@.len() * TARGET_RATE <= u64::MAX,
        out_count(pcm@.len() as int, rate, ch) * 2 <= usize::MAX,
    ensures
        r@ == resampled(pcm@, rate, ch),
{
    let n: usize = pcm.len();
    if n == 0 || (rate == TARGET_RATE && ch == 2) {
        let r = vstd::slice::slice_to_vec(pcm);
        assert(r@ =~= pcm@);
        return r;
    }
    let frames: u64 = if ch == 1 {
        n as u64
    } else {
        n as u64 / 2
    };
    let d: u64 = if rate < 1 {
        1
    } else {
        rate as u64
    };
    assert(frames * TARGET_RATE <= n * TARGET_RATE) by (nonlinear_arith)
        requires
            frames <= n,
    ;
    let total: u64 = frames * (TARGET_RATE as u64) / d;
    assert(total == out_count(pcm@.len() as int, rate, ch));
    let out_frames: usize = total as usize;
    let mut out: Vec<i16> = Vec::new();
    let mut i: usize = 0;
    while i < out_frames
        invariant
            i <= out_frames,
            out_frames == total,
            total == out_count(pcm@.len() as int, rate, ch),
            total * 2 <= usize::MAX,
            n == pcm@.len(),
            n > 0,
            !(rate == TARGET_RATE && ch == 2),
            frames == frame_count(n as int, ch),
            frames * TARGET_RATE <= u64::MAX,
            d == (if rate < 1 {
                1int
            } else {
                rate as int
            }),
            total == frames * TARGET_RATE / d as int,
            out@ == resampled(pcm@, rate, ch).take(i * 2),
        decreases out_frames - i,
    {
        proof {
            lemma_source_fits(i as int, frames as int, rate, d as int);
        }
        let src: u64 = (i as u64) * (rate as u64) / (TARGET_RATE as u64);
        let s: usize = if src < frames {
            src as usize
        } else {
            (frames - 1) as usize
        };
        assert(s == source_frame(i as int, frames as int, rate));
        let ghost all = resampled(pcm@, rate, ch);
        assert((2 * i) / 2 == i && (2 * i) % 2 == 0);
        assert((2 * i + 1) / 2 == i && (2 * i + 1) % 2 == 1);
        if ch == 1 {
            out.push(pcm[s]);
            out.push(pcm[s]);
        } else {
            assert(frames * 2 <= n);
            out.push(pcm[s * 2]);
            out.push(pcm[s * 2 + 1]);
        }
        assert(out@ =~= all.take((i + 1) * 2));
        i += 1;
    }
    assert(resampled(pcm@, rate, ch).take(out_frames * 2) =~= resampled(pcm@, rate, ch));
    out
}

/// Every output frame comes from a frame that is there.
proof fn lemma_source_fits(i: int, frames: int, rate: u32, d: int)
    requires
        0 <= i < frames * TARGET_RATE / d,
        frames >= 0,
        frames * TARGET_RATE <= u64::MAX,
        d == (if rate < 1 {
            1int
        } else {
            rate as int
        }),
    ensures
        frames > 0,
        0 <= i * rate <= u64::MAX,
        0 <= i * rate / (TARGET_RATE as int) < frames,
{
    assert(frames > 0) by (nonlinear_arith)
        requires
            0 <= i < frames * TARGET_RATE / d,
            frames >= 0,
            d >= 1,
    ;
    assert((i + 1) * d <= frames * TARGET_RATE) by (nonlinear_arith)
        requires
            i + 1 <= frames * TARGET_RATE / d,
            d >= 1,
    ;
    assert(0 <= i * rate && i * rate < frames * TARGET_RATE) by (nonlinear_arith)
        requires
            (i + 1) * d <= frames * TARGET_RATE,
            0 <= i,
            frames > 0,
            d == (if rate < 1 {
                1int
            } else {
                rate as int
            }),
    ;
    assert(i * rate / (TARGET_RATE as int) < frames) by (nonlinear_arith)
        requires
            0 <= i * rate < frames * TARGET_RATE,
            TARGET_RATE == 44100,
    ;
}

/// The samples at the target rate last as long as those at the native rate, to
/// less than one frame.
pub proof fn law_resampling_keeps_time(samples: int, rate: u32, ch: u32)
    requires
        samples >= 0,
        rate >= 1,
    ensures
        out_count(samples, rate, ch) * rate <= frame_count(samples, ch) * TARGET_RATE,
        frame_count(samples, ch) * TARGET_RATE < (out_count(samples, rate, ch) + 1) * rate,
{
    let total = frame_count(samples, ch) * TARGET_RATE;
    let r = rate as int;
    let q = total / r;
    assert(q * r <= total && total < (q + 1) * r) by (nonlinear_arith)
        requires
            q == total / r,
            r >= 1,
    ;
}

/// The frames of interleaved samples: one sample each of a single channel, else two.
pub open spec fn is_frame_count(samples: int, ch: u32, frames: int) -> bool {
    if ch == 1 {
        frames == samples
    } else {
        frames * 2 <= samples < frames * 2 + 2
    }
}

/// What is heard keeps its moment: output frame `i` is an input frame `s` that
/// begins at or before it and ends behind it, `s / rate <= i / 44100 < (s + 1) /
/// rate`, on both sides.
pub proof fn law_resampled_frames_keep_their_moment(
    pcm: Seq<i16>,
    rate: u32,
    ch: u32,
    frames: int,
    i: int,
)
    requires
        is_frame_count(pcm.len() as int, ch, frames),
        0 <= i,
        i * 2 + 1 < resampled(pcm, rate, ch).len(),
    ensures
        exists|s: int|
            #![trigger s * 44100]
            0 <= s < frames && s * 44100 <= i * rate < (s + 1) * 44100 && (if ch == 1 {
                resampled(pcm, rate, ch)[i * 2] == pcm[s] && resampled(pcm, rate, ch)[i * 2 + 1]
                    == pcm[s]
            } else {
                resampled(pcm, rate, ch)[i * 2] == pcm[s * 2] && resampled(pcm, rate, ch)[i * 2 + 1]
                    == pcm[s * 2 + 1]
            }),
{
    let d = if rate < 1 {
        1int
    } else {
        rate as int
    };
    assert((i * 2) / 2 == i && (i * 2) % 2 == 0);
    assert((i * 2 + 1) / 2 == i && (i * 2 + 1) % 2 == 1);
    if rate == TARGET_RATE && ch == 2 {
        assert(i * 44100 <= i * rate < (i + 1) * 44100);
    } else {
        assert(frames == frame_count(pcm.len() as int, ch));
        lemma_moment(i, frames, rate, d);
        let s = i * rate / 44100;
        assert(s * 44100 <= i * rate < (s + 1) * 44100);
        assert(source_frame(i, frames, rate) == s);
    }
}

proof fn lemma_moment(i: int, frames: int, rate: u32, d: int)
    requires
        0 <= i < frames * TARGET_RATE / d,
        frames >= 0,
        d == (if rate < 1 {
            1int
        } else {
            rate as int
        }),
    ensures
        0 <= i * rate / 44100 < frames,
        i * rate / 44100 * 44100 <= i * rate < (i * rate / 44100 + 1) * 44100,
{
    assert((i + 1) * d <= frames * TARGET_RATE) by (nonlinear_arith)
        requires
            i + 1 <= frames * TARGET_RATE / d,
            d >= 1,
    ;
    assert(0 <= i * rate && i * rate < (i + 1) * d) by (nonlinear_arith)
        requires
            0 <= i,
            d == (if rate < 1 {
                1int
            } else {
                rate as int
            }),
    ;
    let x = i * rate;
    assert(x < frames * 44100);
    assert(0 <= x / 44100 < frames);
}

/// The output lasts as long as the input, to less than one frame: it is short of
/// neither, and a rate that is already right in stereo changes nothing.
pub proof fn law_resampled_length(pcm: Seq<i16>, rate: u32, ch: u32, frames: int)
    requires
        is_frame_count(pcm.len() as int, ch, frames),
        rate >= 1,
    ensures
        rate == 44100 && ch == 2 ==> resampled(pcm, rate, ch) == pcm,
        ({
            let out = resampled(pcm, rate, ch).len() as int / 2;
            out * rate <= frames * 44100 < (out + 1) * rate
        }),
{
    law_resampling_keeps_time(pcm.len() as int, rate, ch);
    assert(frames == frame_count(pcm.len() as int, ch));
    assert(frames * 44100 / 44100 == frames);
    let n = out_count(pcm.len() as int, rate, ch);
    assert(n >= 0) by (nonlinear_arith)
        requires
            frames * 44100 < (n + 1) * rate,
            frames >= 0,
            rate >= 1,
    ;
    assert(n * 2 / 2 == n);
}

// --------------------------------------------------------------------- the pump

/// A track on its way into the ring.
pub struct Pump {
    rate: u32,
    duration_ms: u32,
    ring_cap: u64,
    at: u64,
    held: bool,
    waited: u32,
}

/// What a [`Pump`] holds.
pub struct PumpView {
    /// Frames a second of the track.
    pub rate: u32,
    pub duration_ms: u32,
    /// Frames that the ring takes when it is empty.
    pub ring_cap: u64,
    /// Frames that were decoded.
    pub at: u64,
    /// A pause has been carried out.
    pub held: bool,
    /// Turns that were spent on the tail.
    pub waited: u32,
}

/// `a - b`, or zero.
pub open spec fn less(a: int, b: int) -> int {
    if a >= b {
        a - b
    } else {
        0
    }
}

impl View for Pump {
    type V = PumpView;

    closed spec fn view(&self) -> PumpView {
        PumpView {
            rate: self.rate,
            duration_ms: self.duration_ms,
            ring_cap: self.ring_cap,
            at: self.at,
            held: self.held,
            waited: self.waited,
        }
    }
}

impl PumpView {
    /// Frames that are in the ring and not yet heard.
    pub open spec fn queued(self, free: u64) -> int {
        less(self.ring_cap as int, free as int)
    }

    /// The frame that the listener hears.
    pub open spec fn heard(self, free: u64) -> int {
        less(self.at as int, self.queued(free))
    }

    /// A frame in milliseconds.
    pub open spec fn ms(self, frame: int) -> int {
        decoder::ms_of(
            frame,
            if self.rate < 1 {
                1
            } else {
                self.rate as int
            },
        )
    }

    /// What the pump does in a turn, with `free` frames of room in the ring.
    pub open spec fn turn_of(self, stop: bool, paused: bool, free: u64) -> Turn {
        if stop {
            Turn::Leave
        } else if paused {
            if self.held {
                Turn::Rest
            } else {
                Turn::Hold(
                    if self.heard(free) < self.at {
                        Some(self.heard(free) as u64)
                    } else {
                        None
                    },
                )
            }
        } else if free < TURN_FRAMES {
            Turn::Full
        } else {
            Turn::Decode(TURN_FRAMES)
        }
    }

    /// How the wait for the ring to run dry goes on.
    pub open spec fn tail_of(self, stop: bool, paused: bool, free: u64) -> Tail {
        if self.queued(free) <= TAIL_FRAMES || self.waited >= TAIL_TURNS || stop {
            Tail::Over
        } else if paused {
            Tail::Rest
        } else {
            Tail::Wait
        }
    }
}

/// What the pump does next.
#[derive(Clone, Copy, Debug, PartialEq, Eq, Structural)]
pub enum Turn {
    /// The track was stopped.
    Leave,
    /// Empty the ring, and bring the decoder back to what the listener heard.
    Hold(Option<u64>),
    /// Paused: sleep.
    Rest,
    /// The ring has no room: sleep.
    Full,
    /// Decode that many frames.
    Decode(u64),
}

/// How the end of a track goes on.
#[derive(Clone, Copy, Debug, PartialEq, Eq, Structural)]
pub enum Tail {
    Over,
    /// Paused: the time does not count.
    Rest,
    Wait,
}

/// What the decoder says of a track that it opened: frames a second and frames in
/// all.
pub struct Opened {
    pub rate: i32,
    pub frames: i64,
}

/// The rate of the pump, never negative.
pub open spec fn pump_rate(o: Opened) -> u32 {
    if o.rate < 0 {
        0
    } else {
        o.rate as u32
    }
}

pub open spec fn pump_duration(o: Opened) -> int {
    decoder::ms_of(
        decoder::frames_of(Some(o.frames)),
        if pump_rate(o) < 1 {
            1
        } else {
            pump_rate(o) as int
        },
    )
}

impl Pump {
    /// Begins with what opening the track gave; `free` is the room of the empty
    /// ring. A path with a zero character, or one that the decoder refuses, ends
    /// it at once.
    pub fn pump_stream(deck: &mut Deck, path: &str, opened: Option<Opened>, free: u64) -> (r:
        Option<Pump>)
        requires
            match opened {
                Some(o) => o.frames <= decoder::MAX_FRAMES,
                None => true,
            },
        ensures
            match (opened, text::has_zero(path@)) {
                (Some(o), false) => r is Some && final(deck)@ == (DeckView {
                    rate_hz: TARGET_RATE,
                    dur_ms: pump_duration(o) as u32,
                    pos_ms: 0,
                    playing: true,
                    paused: false,
                    ..old(deck)@
                }) && r->0@ == (PumpView {
                    rate: pump_rate(o),
                    duration_ms: pump_duration(o) as u32,
                    ring_cap: free,
                    at: 0,
                    held: false,
                    waited: 0,
                }),
                _ => r is None && final(deck)@ == (DeckView { playing: false, ..old(deck)@ }),
            },
    {
        if text::contains_zero(path) {
            deck.pump_failed();
            return None;
        }
        match opened {
            None => {
                deck.pump_failed();
                None
            },
            Some(o) => {
                let rate: u32 = if o.rate < 0 {
                    0
                } else {
                    o.rate as u32
                };
                let frames: u64 = if o.frames < 0 {
                    0
                } else {
                    o.frames as u64
                };
                let duration_ms: u32 = decoder::to_ms(frames, rate);
                deck.pump_started(duration_ms);
                let p = Pump { rate, duration_ms, ring_cap: free, at: 0, held: false, waited: 0 };
                Some(p)
            },
        }
    }

    fn queued(&self, free: u64) -> (r: u64)
        ensures
            r == self@.queued(free),
    {
        if self.ring_cap >= free {
            self.ring_cap - free
        } else {
            0
        }
    }

    /// Frames that the listener has heard.
    pub fn heard(&self, free: u64) -> (r: u64)
        ensures
            r == self@.heard(free),
            r <= self@.at,
    {
        let q: u64 = self.queued(free);
        if self.at >= q {
            self.at - q
        } else {
            0
        }
    }

    /// Decides the next turn.
    pub fn turn(&mut self, deck: &Deck, free: u64) -> (r: Turn)
        ensures
            r == old(self)@.turn_of(deck@.stop, deck@.paused, free),
            final(self)@ == (PumpView {
                held: old(self)@.held && (deck@.stop || deck@.paused),
                ..old(self)@
            }),
    {
        if deck.is_stopped() {
            return Turn::Leave;
        }
        if deck.is_paused() {
            if self.held {
                return Turn::Rest;
            }
            let heard: u64 = self.heard(free);
            return Turn::Hold(
                if heard < self.at {
                    Some(heard)
                } else {
                    None
                },
            );
        }
        self.held = false;
        if free < TURN_FRAMES {
            Turn::Full
        } else {
            Turn::Decode(TURN_FRAMES)
        }
    }

    /// The ring was emptied for a pause, and the decoder brought back to `back`
    /// where that succeeded: the lost frames are decoded again later.
    pub fn hold(&mut self, deck: &mut Deck, back: Option<u64>)
        requires
            old(self)@.at <= decoder::MAX_FRAMES,
            match back {
                Some(f) => f <= old(self)@.at,
                None => true,
            },
        ensures
            final(self)@ == (PumpView {
                held: true,
                at: match back {
                    Some(f) => f,
                    None => old(self)@.at,
                },
                ..old(self)@
            }),
            final(deck)@ == (DeckView {
                pos_ms: final(self)@.ms(final(self)@.at as int) as u32,
                ..old(deck)@
            }),
    {
        match back {
            Some(f) => {
                self.at = f;
            },
            None => {},
        }
        self.held = true;
        deck.set_pos(decoder::to_ms(self.at, self.rate));
    }

    /// Whether decoded frames can be taken: they are in the buffer, the track stays
    /// countable, and the converted samples fit the memory.
    pub open spec fn takes(self, got: i32, room: int) -> bool {
        got > 0 ==> got * 2 <= room && self@.at + got <= decoder::MAX_FRAMES && out_count(
            got * 2,
            self@.rate,
            2,
        ) * 2 <= usize::MAX
    }

    pub fn can_take(&self, got: i32, room: usize) -> (r: bool)
        ensures
            r == self.takes(got, room as int),
    {
        if got <= 0 {
            return true;
        }
        if got as usize > room / 2 || self.at > decoder::MAX_FRAMES || got as u64
            > decoder::MAX_FRAMES - self.at {
            return false;
        }
        let d: u64 = if self.rate < 1 {
            1
        } else {
            self.rate as u64
        };
        let n: u64 = got as u64 * (TARGET_RATE as u64) / d;
        assert(n == out_count(got * 2, self.rate, 2));
        n <= usize::MAX as u64 / 2
    }

    /// Takes decoded frames and gives what goes into the ring; without any the
    /// track is at its end.
    pub fn decoded(&mut self, got: i32, buf: &[i16]) -> (r: Option<Vec<i16>>)
        requires
            old(self).takes(got, buf@.len() as int),
        ensures
            got <= 0 ==> r is None && final(self)@ == old(self)@,
            got > 0 ==> r is Some && r->0@ == resampled(buf@.take(got * 2), old(self)@.rate, 2)
                && final(self)@ == (PumpView { at: (old(self)@.at + got) as u64, ..old(self)@ }),
    {
        if got <= 0 {
            return None;
        }
        let n: usize = got as usize * 2;
        let part = vstd::slice::slice_subrange(buf, 0, n);
        assert(part@ =~= buf@.take(n as int));
        let stereo = resample_stereo(part, self.rate, 2);
        self.at = self.at + got as u64;
        Some(stereo)
    }

    /// Reports the position that the listener hears.
    pub fn report(&self, deck: &mut Deck, free: u64)
        requires
            self@.at <= decoder::MAX_FRAMES,
        ensures
            final(deck)@ == (DeckView {
                pos_ms: self@.ms(self@.heard(free)) as u32,
                ..old(deck)@
            }),
    {
        let heard: u64 = self.heard(free);
        deck.set_pos(decoder::to_ms(heard, self.rate));
    }

    /// After the end of the stream: lets the ring run dry.
    pub fn tail(&mut self, deck: &Deck, free: u64) -> (r: Tail)
        ensures
            r == old(self)@.tail_of(deck@.stop, deck@.paused, free),
            final(self)@ == (PumpView {
                waited: (old(self)@.waited + (if r == Tail::Wait {
                    1int
                } else {
                    0
                })) as u32,
                ..old(self)@
            }),
    {
        let q: u64 = self.queued(free);
        if q <= TAIL_FRAMES || self.waited >= TAIL_TURNS || deck.is_stopped() {
            return Tail::Over;
        }
        if deck.is_paused() {
            return Tail::Rest;
        }
        self.waited += 1;
        Tail::Wait
    }

    /// Leaves.
    pub fn finish(&self, deck: &mut Deck, to_the_end: bool)
        ensures
            final(deck)@ == (DeckView {
                playing: false,
                pos_ms: if to_the_end && !old(deck)@.stop && !old(deck)@.paused {
                    self@.duration_ms
                } else {
                    old(deck)@.pos_ms
                },
                ..old(deck)@
            }),
    {
        deck.pump_finished(to_the_end, self.duration_ms);
    }
}

/// The reported position never runs ahead of what was decoded.
pub proof fn law_heard_is_decoded(p: PumpView, free: u64)
    ensures
        0 <= p.heard(free) <= p.at,
        free >= p.ring_cap ==> p.heard(free) == p.at,
{
}

/// A pause loses nothing: once the decoder is back at what was heard, the ring is
/// empty and what is decoded next is what would have been heard next.
pub proof fn law_pause_loses_nothing(p: PumpView, free: u64)
    requires
        !p.held,
    ensures
        match p.turn_of(false, true, free) {
            Turn::Hold(Some(f)) => f == p.heard(free) && (PumpView { at: f, held: true, ..p }).heard(
                p.ring_cap,
            ) == p.heard(free),
            Turn::Hold(None) => p.heard(free) == p.at,
            _ => false,
        },
{
}

/// While a pause lasts nothing is decoded, and the wait for the tail does not run
/// on.
pub proof fn law_pause_rests(p: PumpView, free: u64)
    ensures
        p.turn_of(false, true, free) !is Decode,
        p.tail_of(false, true, free) != Tail::Wait,
{
}

/// In a turn the pump decodes 1024 frames where the ring has room for them and it
/// is neither stopped nor paused; a stop goes before everything.
pub proof fn law_turns(p: PumpView, stop: bool, paused: bool, free: u64)
    ensures
        stop <==> p.turn_of(stop, paused, free) == Turn::Leave,
        !stop && !paused && free >= 1024 ==> p.turn_of(stop, paused, free) == Turn::Decode(1024),
        !stop && !paused && free < 1024 ==> p.turn_of(stop, paused, free) == Turn::Full,
        !stop && paused && p.held ==> p.turn_of(stop, paused, free) == Turn::Rest,
{
}

/// What is queued is what the ring holds, and what is heard is what was decoded
/// less what is queued.
pub proof fn law_heard_is_decoded_less_queued(p: PumpView, free: u64)
    requires
        free <= p.ring_cap,
        p.ring_cap - free <= p.at,
    ensures
        p.queued(free) + free == p.ring_cap,
        p.heard(free) + p.queued(free) == p.at,
{
}

/// The tail is over once at most 256 frames are left in the ring, or after 400
/// turns of waiting, or at a stop; a pause does not count.
pub proof fn law_tail(p: PumpView, stop: bool, paused: bool, free: u64)
    requires
        free <= p.ring_cap,
    ensures
        p.ring_cap - free <= 256 || p.waited >= 400 || stop ==> p.tail_of(stop, paused, free)
            == Tail::Over,
        p.ring_cap - free > 256 && p.waited < 400 && !stop ==> p.tail_of(stop, paused, free) == (
        if paused {
            Tail::Rest
        } else {
            Tail::Wait
        }),
{
}

/// The reported position is what the listener hears, in milliseconds: the last one
/// that began at that frame.
pub proof fn law_position_is_what_is_heard(p: Pump, deck: &mut Deck, free: u64)
    requires
        call_ensures(Pump::report, (&p, deck, free), ()),
        p@.at <= decoder::MAX_FRAMES,
        p@.rate >= 1,
        p@.heard(free) * 1000 < 0x1_0000_0000 * p@.rate,
    ensures
        final(deck)@.pos_ms * p@.rate <= p@.heard(free) * 1000 < (final(deck)@.pos_ms + 1)
            * p@.rate,
        final(deck)@.playing == old(deck)@.playing,
        final(deck)@.dur_ms == old(deck)@.dur_ms,
        final(deck)@.path == old(deck)@.path,
{
    decoder::law_frames_in_milliseconds(p@.heard(free), p@.rate as int);
}

/// Frames that were decoded count once, and all that they become goes into the
/// ring; no frames are the end, and change nothing.
pub proof fn law_decoded_frames_count(p: &mut Pump, got: i32, buf: &[i16], r: Option<Vec<i16>>)
    requires
        call_ensures(Pump::decoded, (p, got, buf), r),
        p@.at + got <= 0xffff_ffff_ffff_ffff,
    ensures
        got <= 0 ==> r is None && final(p)@ == old(p)@,
        got > 0 ==> r is Some && final(p)@.at == old(p)@.at + got && final(p)@.rate == old(p)@.rate,
        got > 0 && old(p)@.rate == 44100 ==> r->0@ == buf@.take(got * 2),
{
}

/// A pump begins at frame zero with the rate and the duration of its track; where
/// the track cannot be opened nothing plays.
pub proof fn law_pump_begins(
    deck: &mut Deck,
    path: &str,
    opened: Option<Opened>,
    free: u64,
    r: Option<Pump>,
)
    requires
        call_ensures(Pump::pump_stream, (deck, path, opened, free), r),
        opened matches Some(o) ==> o.rate >= 1 && 0 <= o.frames <= decoder::MAX_FRAMES && o.frames
            * 1000 < 0x1_0000_0000 * o.rate,
    ensures
        opened is None ==> r is None && !final(deck)@.playing,
        opened is Some && !text::has_zero(path@) ==> (r matches Some(p) && p@.at == 0 && p@.rate
            == opened->0.rate && p@.ring_cap == free && !p@.held && p@.duration_ms * p@.rate
            <= opened->0.frames * 1000 < (p@.duration_ms + 1) * p@.rate && final(deck)@.playing
            && !final(deck)@.paused && final(deck)@.pos_ms == 0 && final(deck)@.dur_ms
            == p@.duration_ms && final(deck)@.rate_hz == 44100),
{
    if let Some(o) = opened {
        decoder::law_frames_in_milliseconds(o.frames as int, o.rate as int);
    }
}

/// What goes into the ring is what was decoded, converted from the track's rate;
/// frames of two channels stay frames of two channels.
pub proof fn law_ring_gets_the_converted_frames(
    p: &mut Pump,
    got: i32,
    buf: &[i16],
    r: Option<Vec<i16>>,
)
    requires
        call_ensures(Pump::decoded, (p, got, buf), r),
        got > 0,
        got * 2 <= buf@.len(),
        p@.at + got <= 0xffff_ffff_ffff_ffff,
    ensures
        r is Some,
        r->0@ == resampled(buf@.take(got * 2), old(p)@.rate, 2),
        final(p)@ == (PumpView { at: (old(p)@.at + got) as u64, ..old(p)@ }),
        old(p)@.rate >= 1 ==> (r->0@.len() as int / 2) * old(p)@.rate <= got * 44100 < (r->0@.len()
            as int / 2 + 1) * old(p)@.rate,
{
    if old(p)@.rate >= 1 {
        assert(buf@.take(got * 2).len() == got * 2);
        law_resampled_length(buf@.take(got * 2), old(p)@.rate, 2, got as int);
    }
}

/// A turn forgets the pause once the deck plays on, and changes nothing else.
pub proof fn law_turn_follows_the_deck(p: &mut Pump, deck: &Deck, free: u64, r: Turn)
    requires
        call_ensures(Pump::turn, (p, deck, free), r),
    ensures
        r == old(p)@.turn_of(deck@.stop, deck@.paused, free),
        final(p)@.held <==> old(p)@.held && (deck@.stop || deck@.paused),
        final(p)@.at == old(p)@.at,
        final(p)@.rate == old(p)@.rate,
        final(p)@.ring_cap == old(p)@.ring_cap,
        final(p)@.waited == old(p)@.waited,
{
}

/// A pause that was carried out stands where the decoder was brought back to, and
/// reports that place.
pub proof fn law_pause_is_carried_out(p: &mut Pump, deck: &mut Deck, back: Option<u64>)
    requires
        call_ensures(Pump::hold, (p, deck, back), ()),
        p@.at <= decoder::MAX_FRAMES,
        back matches Some(f) ==> f <= p@.at,
        p@.rate >= 1,
        p@.at * 1000 < 0x1_0000_0000 * p@.rate,
    ensures
        final(p)@.held,
        back matches Some(f) ==> final(p)@.at == f,
        back is None ==> final(p)@.at == old(p)@.at,
        final(deck)@.pos_ms * old(p)@.rate <= final(p)@.at * 1000 < (final(deck)@.pos_ms + 1)
            * old(p)@.rate,
        final(deck)@.paused == old(deck)@.paused,
        final(deck)@.playing == old(deck)@.playing,
{
    let at = match back {
        Some(f) => f as int,
        None => p@.at as int,
    };
    assert(at * 1000 < 0x1_0000_0000 * p@.rate);
    decoder::law_frames_in_milliseconds(at, p@.rate as int);
}

/// Only a turn of waiting counts toward the end of the tail.
pub proof fn law_tail_counts_its_waits(p: &mut Pump, deck: &Deck, free: u64, r: Tail)
    requires
        call_ensures(Pump::tail, (p, deck, free), r),
        p@.waited < 1000,
    ensures
        r == old(p)@.tail_of(deck@.stop, deck@.paused, free),
        r == Tail::Wait ==> final(p)@.waited == old(p)@.waited + 1,
        r != Tail::Wait ==> final(p)@.waited == old(p)@.waited,
        final(p)@.at == old(p)@.at,
{
}

/// A track that was played to its end stands at its duration; one that was
/// stopped or paused stays where it is.
pub proof fn law_pump_leaves(p: Pump, deck: &mut Deck, to_the_end: bool)
    requires
        call_ensures(Pump::finish, (&p, deck, to_the_end), ()),
    ensures
        !final(deck)@.playing,
        to_the_end && !old(deck)@.stop && !old(deck)@.paused ==> final(deck)@.pos_ms
            == p@.duration_ms,
        !to_the_end || old(deck)@.stop || old(deck)@.paused ==> final(deck)@.pos_ms
            == old(deck)@.pos_ms,
        final(deck)@.dur_ms == old(deck)@.dur_ms,
        final(deck)@.paused == old(deck)@.paused,
{
}

/// Decoded frames are taken where the buffer holds them.
pub proof fn law_frames_must_be_in_the_buffer(p: Pump, got: i32, room: usize, r: bool)
    requires
        call_ensures(Pump::can_take, (&p, got, room), r),
        p@.rate == 44100,
        room <= 1000000,
        p@.at <= 1000000,
    ensures
        r <==> got <= 0 || got * 2 <= room,
{
    if got > 0 && got * 2 <= room {
        assert(got * 2 / 2 == got);
        assert(got * 44100 / 44100 == got);
        assert(out_count(got * 2, 44100, 2) == got);
    }
}

} // verus!
