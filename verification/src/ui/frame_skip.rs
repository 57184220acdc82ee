//! Skipping frames on which nothing changed.

use vstd::prelude::*;
use crate::host;
use crate::text;

verus! {

pub const SEED: u64 = 0xcbf2_9ce4_8422_2325;

pub const PRIME: u64 = 0x0000_0100_0000_01b3;

/// Frames between two lines in the log.
pub const LOG_EVERY: u32 = 60;

/// The FNV-1a digest of the words of a draw list.
pub open spec fn words_digest(words: Seq<u32>) -> u64
    decreases words.len(),
{
    if words.len() == 0 {
        SEED
    } else {
        (words_digest(words.drop_last()) ^ (words.last() as u64)).wrapping_mul(PRIME)
    }
}

/// `r` turned to the left by seven bits.
pub open spec fn turned(r: u64) -> u64 {
    (r << 7) | (r >> 57)
}

/// The digest of a frame: its draw list, and the revision of what the list refers
/// to.
pub open spec fn frame_digest(words: Seq<u32>, revision: u64) -> u64 {
    words_digest(words) ^ turned(revision)
}

fn digest(words: &[u32], revision: u64) -> (r: u64)
    ensures
        r == frame_digest(words@, revision),
{
    let n: usize = words.len();
    let mut hash: u64 = SEED;
    let mut i: usize = 0;
    assert(words@.take(0) =~= Seq::empty());
    while i < n
        invariant
            i <= n,
            n == words@.len(),
            hash == words_digest(words@.take(i as int)),
        decreases n - i,
    {
        assert(words@.take(i + 1).drop_last() =~= words@.take(i as int));
        hash = hash ^ (words[i] as u64);
        hash = hash.wrapping_mul(PRIME);
        i += 1;
    }
    assert(words@.take(n as int) =~= words@);
    hash ^ ((revision << 7) | (revision >> 57))
}

/// What is known of the last frame.
pub struct FrameSkip {
    seen: bool,
    last: u64,
    ticks: u32,
}

pub struct SkipView {
    /// The digest of the last frame that was drawn, if any was.
    pub last: Option<u64>,
    /// Frames that were counted for the log.
    pub ticks: u32,
}

impl View for FrameSkip {
    type V = SkipView;

    closed spec fn view(&self) -> SkipView {
        SkipView {
            last: if self.seen {
                Some(self.last)
            } else {
                None
            },
            ticks: self.ticks,
        }
    }
}

impl SkipView {
    /// Whether a frame has to be drawn: the first one, and one that differs from
    /// the last.
    pub open spec fn changes(self, words: Seq<u32>, revision: u64) -> bool {
        self.last != Some(frame_digest(words, revision))
    }

    pub open spec fn next_tick(self) -> u32 {
        if self.ticks == u32::MAX {
            0
        } else {
            (self.ticks + 1) as u32
        }
    }

    pub open spec fn after(self, words: Seq<u32>, revision: u64, logged: bool) -> SkipView {
        SkipView {
            last: Some(frame_digest(words, revision)),
            ticks: if logged {
                self.next_tick()
            } else {
                self.ticks
            },
        }
    }
}

/// What a frame comes to.
pub struct Frame {
    /// Draw it.
    pub changed: bool,
    /// A line for the log.
    pub line: Option<String>,
}

/// What the log says of a frame.
pub open spec fn frame_line(words: nat, changed: bool) -> Seq<char> {
    "frame: words="@ + text::dec_text(words) + " present="@ + (if changed {
        "1"@
    } else {
        "0"@
    })
}

/// What the outcome of a frame with these words and this revision is.
pub open spec fn frame_ok(f: Frame, before: SkipView, words: Seq<u32>, revision: u64, logged: bool) -> bool {
    f.changed == before.changes(words, revision) && match f.line {
        Some(s) => logged && before.next_tick() % 60 == 0 && s@ == frame_line(
            words.len(),
            f.changed,
        ),
        None => !logged || before.next_tick() % 60 != 0,
    }
}

impl FrameSkip {
    pub fn new() -> (r: Self)
        ensures
            r@ == (SkipView { last: None, ticks: 0 }),
    {
        FrameSkip { seen: false, last: 0, ticks: 0 }
    }

    /// Judges a frame by its draw list and the revision of the core; with the log
    /// on, every sixtieth frame is worth a line.
    pub fn judge(&mut self, words: &[u32], revision: u64, logged: bool) -> (r: Frame)
        ensures
            frame_ok(r, old(self)@, words@, revision, logged),
            final(self)@ == old(self)@.after(words@, revision, logged),
    {
        let hash: u64 = digest(words, revision);
        let changed = !(self.seen && self.last == hash);
        self.seen = true;
        self.last = hash;
        let mut line: Option<String> = None;
        if logged {
            self.ticks = if self.ticks == u32::MAX {
                0
            } else {
                self.ticks + 1
            };
            if self.ticks % LOG_EVERY == 0 {
                let mut s = "frame: words=".to_owned();
                s.append(text::dec(words.len() as u64).as_str());
                s.append(" present=");
                if changed {
                    s.append("1");
                } else {
                    s.append("0");
                }
                line = Some(s);
            }
        }
        Frame { changed, line }
    }

    /// Draws the list of the core and judges the frame.
    pub fn frame_changed(&mut self, ui: &mut pocketjs_core::Ui, logged: bool) -> (r: Frame)
        ensures
            frame_ok(r, old(self)@, host::draw_list(*final(ui)), host::revision_of(*old(ui)), logged),
            final(self)@ == old(self)@.after(
                host::draw_list(*final(ui)),
                host::revision_of(*old(ui)),
                logged,
            ),
    {
        let revision: u64 = host::raster_revision(ui);
        let words = host::draw_words(ui);
        self.judge(words.as_slice(), revision, logged)
    }
}

/// The first frame is always drawn, and a frame that equals the one before it is
/// not.
pub proof fn law_equal_frames_are_skipped(
    s: SkipView,
    words: Seq<u32>,
    revision: u64,
    logged: bool,
)
    ensures
        s.last is None ==> s.changes(words, revision),
        !s.after(words, revision, logged).changes(words, revision),
{
}

/// With the same draw list, a new revision always has the frame drawn.
pub proof fn law_new_revision_is_drawn(
    s: SkipView,
    words: Seq<u32>,
    old_revision: u64,
    new_revision: u64,
    logged: bool,
)
    requires
        old_revision != new_revision,
    ensures
        s.after(words, old_revision, logged).changes(words, new_revision),
{
    let d = words_digest(words);
    assert(old_revision != new_revision ==> d ^ ((old_revision << 7) | (old_revision >> 57)) != d ^ (
    (new_revision << 7) | (new_revision >> 57))) by (bit_vector);
}

} // verus!
