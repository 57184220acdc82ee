//! What the interface's requests come to, and when frames and fonts are drawn
//! anew.

use vstd::prelude::*;
use crate::text;
use crate::ui::cjk_host;
use crate::ui::cjk_host::HeadView;
use crate::ui::cjk_host::LocalRequest;
use crate::ui::cjk_host::Op;
use crate::ui::font_gpu;
use crate::ui::frame_skip;
use crate::ui::frame_skip::SkipView;

verus! {

// ------------------------------------------------------------------- requests

/// The requests by their names, and the numbers that the worker knows them by.
pub proof fn law_operations(method: Seq<char>, code: u8)
    requires
        call_ensures(cjk_host::op_code, (cjk_host::op_of(method),), code),
    ensures
        method == "font.open"@ ==> code == 1,
        method == "font.glyphs"@ ==> code == 2,
        method == "font.stats"@ ==> code == 3,
        method == "fs.read-text"@ ==> code == 4,
        method == "font.close"@ ==> code == 5,
        method != "font.open"@ && method != "font.glyphs"@ && method != "font.stats"@ && method
            != "fs.read-text"@ && method != "font.close"@ ==> code == 0,
{
    reveal_strlit("font.open");
    reveal_strlit("font.glyphs");
    reveal_strlit("font.stats");
    reveal_strlit("fs.read-text");
    reveal_strlit("font.close");
    assert("font.open"@.len() == 9 && "font.glyphs"@.len() == 11 && "font.stats"@.len() == 10
        && "fs.read-text"@.len() == 12 && "font.close"@.len() == 10);
    assert("font.stats"@[5] == 's' && "font.close"@[5] == 'c');
}

/// Only a request of the first version with an id is taken. The two that take a
/// path carry the bytes of the payload, of which there are at most 127.
pub proof fn law_requests_with_a_path(version: u32, id: u32, payload: Seq<char>)
    ensures
        ({
            let bytes = vstd::utf8::encode_utf8(payload);
            let fits = version == 1 && id != 0 && bytes.len() <= 127;
            &&& match cjk_host::head_of(version, id, "font.open"@, payload) {
                HeadView::Submit(q) => fits && q.id == id && q.op == Op::FontOpen && q.path
                    == bytes && q.cps.len() == 0,
                HeadView::Refused => !fits,
                HeadView::Glyphs => false,
            }
            &&& match cjk_host::head_of(version, id, "fs.read-text"@, payload) {
                HeadView::Submit(q) => fits && q.id == id && q.op == Op::ReadText && q.path
                    == bytes && q.cps.len() == 0,
                HeadView::Refused => !fits,
                HeadView::Glyphs => false,
            }
        }),
{
    reveal_strlit("font.open");
    reveal_strlit("font.glyphs");
    reveal_strlit("font.stats");
    reveal_strlit("fs.read-text");
    assert("font.open"@.len() == 9 && "font.glyphs"@.len() == 11 && "font.stats"@.len() == 10
        && "fs.read-text"@.len() == 12);
}

/// The others carry nothing, whatever their payload.
pub proof fn law_requests_without_a_path(version: u32, id: u32, payload: Seq<char>)
    ensures
        match cjk_host::head_of(version, id, "font.stats"@, payload) {
            HeadView::Submit(q) => version == 1 && id != 0 && q.id == id && q.op == Op::FontStats
                && q.path.len() == 0 && q.cps.len() == 0,
            HeadView::Refused => version != 1 || id == 0,
            HeadView::Glyphs => false,
        },
        match cjk_host::head_of(version, id, "font.close"@, payload) {
            HeadView::Submit(q) => version == 1 && id != 0 && q.id == id && q.op == Op::FontClose
                && q.path.len() == 0 && q.cps.len() == 0,
            HeadView::Refused => version != 1 || id == 0,
            HeadView::Glyphs => false,
        },
        match cjk_host::head_of(version, id, "font.glyphs"@, payload) {
            HeadView::Submit(q) => false,
            HeadView::Refused => version != 1 || id == 0 || text::occurs(payload, seq!['\0']),
            HeadView::Glyphs => version == 1 && id != 0 && !text::occurs(payload, seq!['\0']),
        },
{
    reveal_strlit("font.open");
    reveal_strlit("font.glyphs");
    reveal_strlit("font.stats");
    reveal_strlit("fs.read-text");
    reveal_strlit("font.close");
    assert("font.open"@.len() == 9 && "font.glyphs"@.len() == 11 && "font.stats"@.len() == 10
        && "fs.read-text"@.len() == 12 && "font.close"@.len() == 10);
    assert("font.stats"@[5] == 's' && "font.close"@[5] == 'c');
}

/// A batch holds one to four glyphs of one of the twenty-four slots: all that it
/// counts, in order.
pub proof fn law_batches_hold_up_to_four(
    id: u32,
    generation: u32,
    slot: u32,
    count: u32,
    cps: &[u32],
    r: Option<LocalRequest>,
    n: u32,
)
    requires
        cps@.len() >= 4,
        call_ensures(cjk_host::local_glyphs, (id, generation, slot, count, cps), r),
        call_ensures(cjk_host::batch_count, (count, slot), n),
    ensures
        r is Some <==> 0 < count && count < 5 && slot < 24,
        n == count || n == 0,
        n != 0 <==> r is Some,
        r matches Some(q) ==> q@.id == id && q@.op == Op::FontGlyphs && q@.generation == generation
            && q@.slot == slot && q@.cps.len() == count && q@.path.len() == 0 && forall|i: int|
            0 <= i < count ==> #[trigger] q@.cps[i] == cps@[i],
{
}

/// A view of a buffer is used where all of it lies within.
pub proof fn law_views_lie_within(
    offset: i32,
    length: i32,
    buffer: usize,
    r: Option<(usize, usize)>,
)
    requires
        call_ensures(cjk_host::view_range, (offset, length, buffer), r),
    ensures
        r is Some <==> 0 <= offset && 0 <= length && offset + length <= buffer,
        r matches Some(p) ==> p.0 == offset && p.1 == length,
{
}

/// A request of up to four kibibytes is read, a longer one is not.
pub proof fn law_long_requests_are_refused(bytes: &[u8], r: bool, s: String)
    requires
        call_ensures(cjk_host::takes_request, (bytes,), r),
        call_ensures(cjk_host::local_string, (bytes,), s),
    ensures
        r <==> bytes@.len() <= 4 * 1024,
        bytes@.len() <= 4 * 1024 ==> s@ == text::lossy_text(bytes@),
        bytes@.len() > 4 * 1024 ==> s@.len() == 0,
{
    reveal_strlit("");
}

// --------------------------------------------------------------------- frames

/// The digest of a draw list begins at the offset basis of the 64-bit FNV-1a hash;
/// each word is folded in and multiplied by the prime of that hash.
pub proof fn law_frame_digest_grows_by_words(front: Seq<u32>, w: u32)
    ensures
        frame_skip::words_digest(Seq::empty()) == 14695981039346656037u64,
        frame_skip::words_digest(front.push(w)) as int == (frame_skip::words_digest(front) ^ (
        w as u64)) * 1099511628211 % 0x1_0000_0000_0000_0000,
{
    assert(front.push(w).drop_last() =~= front);
}

/// The revision is turned by seven bits to the left: what leaves at the top comes
/// in at the bottom.
pub proof fn law_revision_is_turned(r: u64)
    ensures
        frame_skip::turned(r) as int == (r as int * 128) % 0x1_0000_0000_0000_0000 + r as int
            / 0x200_0000_0000_0000,
{
    assert(((r << 7) | (r >> 57)) == (r * 128) % 0x1_0000_0000_0000_0000 + r
        / 0x200_0000_0000_0000u64) by (bit_vector);
}

/// A frame is drawn where its digest is not that of the frame before; with the log
/// on every sixtieth frame is told of.
pub proof fn law_frames_are_judged(
    before: SkipView,
    words: Seq<u32>,
    revision: u64,
    logged: bool,
    f: frame_skip::Frame,
)
    requires
        frame_skip::frame_ok(f, before, words, revision, logged),
        before.ticks < u32::MAX,
    ensures
        before.last is None ==> f.changed,
        before.last == Some(frame_skip::frame_digest(words, revision)) ==> !f.changed,
        before.last is Some && before.last->0 != frame_skip::frame_digest(words, revision)
            ==> f.changed,
        f.line is Some <==> logged && (before.ticks + 1) % 60 == 0,
        f.line is Some && f.changed ==> f.line->0@ == "frame: words="@ + text::dec_text(words.len())
            + " present="@ + "1"@,
        f.line is Some && !f.changed ==> f.line->0@ == "frame: words="@ + text::dec_text(
            words.len(),
        ) + " present="@ + "0"@,
        before.after(words, revision, logged).ticks == before.ticks + (if logged {
            1int
        } else {
            0
        }),
        before.after(words, revision, logged).last == Some(
            frame_skip::words_digest(words) ^ frame_skip::turned(revision),
        ),
{
}

// ---------------------------------------------------------------------- fonts

/// The slots to refresh are those that hold an atlas and whose revision changed,
/// each once and in order.
pub proof fn law_changed_slots(last: Seq<u64>, now: Seq<u64>, held: Set<u8>, n: int)
    requires
        0 <= n <= 24,
    ensures
        ({
            let out = font_gpu::changed_slots(last, now, held, n);
            &&& forall|i: int, j: int| 0 <= i < j < out.len() ==> #[trigger] out[i] < #[trigger] out[j]
            &&& forall|i: int| 0 <= i < out.len() ==> #[trigger] out[i] < n && held.contains(out[i])
                && last[out[i] as int] != now[out[i] as int]
            &&& forall|slot: u8|
                slot < n && #[trigger] held.contains(slot) && last[slot as int] != now[slot as int]
                    ==> out.contains(slot)
        }),
    decreases n,
{
    if n > 0 {
        law_changed_slots(last, now, held, n - 1);
        let front = font_gpu::changed_slots(last, now, held, n - 1);
        let out = font_gpu::changed_slots(last, now, held, n);
        assert forall|slot: u8|
            slot < n && #[trigger] held.contains(slot) && last[slot as int] != now[slot as int] implies out.contains(
        slot) by {
            if slot < n - 1 {
                assert(front.contains(slot));
                let k = choose|k: int| 0 <= k < front.len() && front[k] == slot;
                assert(out[k] == slot);
            } else {
                assert(out[out.len() - 1] == slot);
            }
        }
    }
}

/// Where slots cannot be told apart, all that hold an atlas are refreshed.
pub proof fn law_held_slots(held: Set<u8>, n: int)
    requires
        0 <= n <= 24,
    ensures
        ({
            let out = font_gpu::held_slots(held, n);
            &&& forall|i: int, j: int| 0 <= i < j < out.len() ==> #[trigger] out[i] < #[trigger] out[j]
            &&& forall|i: int| 0 <= i < out.len() ==> #[trigger] out[i] < n && held.contains(out[i])
            &&& forall|slot: u8| slot < n && #[trigger] held.contains(slot) ==> out.contains(slot)
        }),
    decreases n,
{
    if n > 0 {
        law_held_slots(held, n - 1);
        let front = font_gpu::held_slots(held, n - 1);
        let out = font_gpu::held_slots(held, n);
        assert forall|slot: u8| slot < n && #[trigger] held.contains(slot) implies out.contains(
        slot) by {
            if slot < n - 1 {
                assert(front.contains(slot));
                let k = choose|k: int| 0 <= k < front.len() && front[k] == slot;
                assert(out[k] == slot);
            } else {
                assert(out[out.len() - 1] == slot);
            }
        }
    }
}

/// The line of a refresh names the slot, and the first and last cell that changed.
pub proof fn law_refresh_is_told(slot: u8, first: u16, last: u16, dirty: i32, r: String)
    requires
        call_ensures(font_gpu::refresh_line, (slot, dirty), r),
        dirty < 0 || (first < 32768 && dirty == first * 65536 + last),
    ensures
        dirty >= 0 ==> r@ == "gpu: slot "@ + text::dec_text(slot as nat) + " cells "@
            + text::dec_text(first as nat) + ".."@ + text::dec_text(last as nat),
        dirty < 0 ==> r@ == "gpu: slot "@ + text::dec_text(slot as nat) + " full refresh"@,
{
}

} // verus!
