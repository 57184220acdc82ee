//! What the decoder's raw answers mean. The decoder itself is a C library; a
//! decoder that is not open answers nothing.

use vstd::prelude::*;

verus! {

/// Frames a second where no decoder is open.
pub const DEFAULT_RATE: i32 = 44100;

/// The rate that a decoder's answer stands for: at least one.
pub open spec fn rate_of(raw: Option<i32>) -> int {
    match raw {
        Some(n) => if n < 1 {
            1
        } else {
            n as int
        },
        None => DEFAULT_RATE as int,
    }
}

pub fn rate(raw: Option<i32>) -> (r: i32)
    ensures
        r == rate_of(raw),
        r >= 1,
{
    match raw {
        Some(n) => if n < 1 {
            1
        } else {
            n
        },
        None => DEFAULT_RATE,
    }
}

/// The frames that a decoder's answer stands for: never negative.
pub open spec fn frames_of(raw: Option<i64>) -> int {
    match raw {
        Some(n) => if n < 0 {
            0
        } else {
            n as int
        },
        None => 0,
    }
}

fn frames(raw: Option<i64>) -> (r: i64)
    ensures
        r == frames_of(raw),
        r >= 0,
{
    match raw {
        Some(n) => if n < 0 {
            0
        } else {
            n
        },
        None => 0,
    }
}

/// The frame that the decoder reports next.
pub fn position(raw: Option<i64>) -> (r: i64)
    ensures
        r == frames_of(raw),
        r >= 0,
{
    frames(raw)
}

/// The frames of the whole stream, zero where unknown.
pub fn length(raw: Option<i64>) -> (r: i64)
    ensures
        r == frames_of(raw),
        r >= 0,
{
    frames(raw)
}

/// How many frames may be asked for: none without room for them.
pub fn decode_request(room: usize, max_frames: i32) -> (r: Option<i32>)
    ensures
        r == (if room == 0 || max_frames <= 0 {
            None
        } else {
            Some(max_frames)
        }),
{
    if room == 0 || max_frames <= 0 {
        None
    } else {
        Some(max_frames)
    }
}

/// The longest stream whose thousandfold frame count still fits a word.
pub const MAX_FRAMES: u64 = 18446744073709551;

/// `frames` at `rate` frames a second, in milliseconds, cut to 32 bits.
pub open spec fn ms_of(frames: int, rate: int) -> int
    recommends
        rate >= 1,
{
    (frames * 1000 / rate) % 0x1_0000_0000
}

pub fn to_ms(frames: u64, rate: u32) -> (r: u32)
    requires
        frames <= MAX_FRAMES,
    ensures
        r == ms_of(
            frames as int,
            if rate < 1 {
                1
            } else {
                rate as int
            },
        ),
{
    let d: u64 = if rate < 1 {
        1
    } else {
        rate as u64
    };
    let q: u64 = frames * 1000 / d;
    let cut: u64 = q % 0x1_0000_0000;
    cut as u32
}

/// The duration in milliseconds.
pub fn duration_ms(length: Option<i64>, rate_raw: Option<i32>) -> (r: u32)
    requires
        frames_of(length) <= MAX_FRAMES,
    ensures
        r == ms_of(frames_of(length), rate_of(rate_raw)),
{
    to_ms(frames(length) as u64, rate(rate_raw) as u32)
}

/// The position in milliseconds.
pub fn position_ms(position: Option<i64>, rate_raw: Option<i32>) -> (r: u32)
    requires
        frames_of(position) <= MAX_FRAMES,
    ensures
        r == ms_of(frames_of(position), rate_of(rate_raw)),
{
    to_ms(frames(position) as u64, rate(rate_raw) as u32)
}

/// A position within the stream never reads later than the duration, as long as
/// the duration itself fits 32 bits.
pub proof fn law_position_within_duration(position: int, length: int, rate: int)
    requires
        0 <= position <= length,
        rate >= 1,
        length * 1000 / rate <= u32::MAX,
    ensures
        ms_of(position, rate) <= ms_of(length, rate),
{
    assert(position * 1000 / rate <= length * 1000 / rate && position * 1000 / rate >= 0)
        by (nonlinear_arith)
        requires
            0 <= position <= length,
            rate >= 1,
    ;
}

/// A number of frames in milliseconds is the last millisecond that begins with
/// or before the frame, where it fits 32 bits.
pub proof fn law_frames_in_milliseconds(frames: int, rate: int)
    requires
        0 <= frames,
        1 <= rate,
        frames * 1000 < 0x1_0000_0000 * rate,
    ensures
        ms_of(frames, rate) * rate <= frames * 1000 < (ms_of(frames, rate) + 1) * rate,
{
    let q = frames * 1000 / rate;
    assert(q * rate <= frames * 1000 < (q + 1) * rate && 0 <= q) by (nonlinear_arith)
        requires
            q == frames * 1000 / rate,
            rate >= 1,
            frames >= 0,
    ;
    assert(q < 0x1_0000_0000) by (nonlinear_arith)
        requires
            q * rate <= frames * 1000,
            frames * 1000 < 0x1_0000_0000 * rate,
            rate >= 1,
    ;
}

/// A decoder's answers are taken as they are where they make sense; a decoder
/// that is not open stands at zero, at the common rate.
pub proof fn law_sensible_answers_are_taken(n: i32, k: i64)
    ensures
        n >= 1 ==> rate_of(Some(n)) == n,
        rate_of(None) == 44100,
        k >= 0 ==> frames_of(Some(k)) == k,
        frames_of(None) == 0,
{
}

/// Frames are asked for where there is room, and as many as are wanted.
pub proof fn law_frames_are_asked_for(room: usize, max_frames: i32, r: Option<i32>)
    requires
        call_ensures(decode_request, (room, max_frames), r),
    ensures
        room > 0 && max_frames > 0 ==> r == Some(max_frames),
        room == 0 || max_frames <= 0 ==> r is None,
{
}

/// Answers that make no sense are mended: a rate is at least one, a count of
/// frames at least zero.
pub proof fn law_senseless_answers_are_mended(n: i32, k: i64)
    ensures
        n < 1 ==> rate_of(Some(n)) == 1,
        k < 0 ==> frames_of(Some(k)) == 0,
{
}

/// Milliseconds beyond 32 bits begin again at zero.
pub proof fn law_milliseconds_wrap(frames: int, rate: int)
    requires
        0 <= frames,
        1 <= rate,
    ensures
        0 <= ms_of(frames, rate) < 0x1_0000_0000,
        (frames * 1000 / rate - ms_of(frames, rate)) % 0x1_0000_0000 == 0,
{
}

/// The duration and the position are those frames at that rate.
pub proof fn law_duration_and_position(
    length: i64,
    at: i64,
    hz: i32,
    dur: u32,
    pos: u32,
    n: i64,
    k: i64,
    r: i32,
)
    requires
        hz >= 1,
        0 <= at <= length <= MAX_FRAMES,
        length * 1000 < 0x1_0000_0000 * hz,
        call_ensures(duration_ms, (Some(length), Some(hz)), dur),
        call_ensures(position_ms, (Some(at), Some(hz)), pos),
        call_ensures(self::length, (Some(length),), n),
        call_ensures(position, (Some(at),), k),
        call_ensures(rate, (Some(hz),), r),
    ensures
        dur * hz <= length * 1000 < (dur + 1) * hz,
        pos * hz <= at * 1000 < (pos + 1) * hz,
        pos <= dur,
        n == length,
        k == at,
        r == hz,
{
    law_frames_in_milliseconds(length as int, hz as int);
    law_frames_in_milliseconds(at as int, hz as int);
    assert(pos <= dur) by (nonlinear_arith)
        requires
            pos * hz <= at * 1000,
            length * 1000 < (dur + 1) * hz,
            at <= length,
            hz >= 1,
    ;
}

} // verus!
