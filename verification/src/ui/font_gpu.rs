//! Which font atlases have to be brought to the GPU again.

use vstd::prelude::*;
use crate::host;
use crate::text;

verus! {

/// The revisions of the font slots when they were last refreshed.
pub struct FontRevisions {
    last: [u64; 24],
}

impl View for FontRevisions {
    type V = Seq<u64>;

    closed spec fn view(&self) -> Seq<u64> {
        self.last@
    }
}

/// The slots below `n` whose revision has changed and which hold an atlas, in
/// order.
pub open spec fn changed_slots(last: Seq<u64>, now: Seq<u64>, held: Set<u8>, n: int) -> Seq<u8>
    decreases n,
{
    if n <= 0 {
        Seq::empty()
    } else {
        let front = changed_slots(last, now, held, n - 1);
        if last[n - 1] != now[n - 1] && held.contains((n - 1) as u8) {
            front.push((n - 1) as u8)
        } else {
            front
        }
    }
}

/// The slots below `n` which hold an atlas, in order.
pub open spec fn held_slots(held: Set<u8>, n: int) -> Seq<u8>
    decreases n,
{
    if n <= 0 {
        Seq::empty()
    } else {
        let front = held_slots(held, n - 1);
        if held.contains((n - 1) as u8) {
            front.push((n - 1) as u8)
        } else {
            front
        }
    }
}

impl FontRevisions {
    pub fn new() -> (r: Self)
        ensures
            r@ == Seq::new(24, |i: int| 0u64),
    {
        let r = FontRevisions { last: [0; 24] };
        assert(r@ =~= Seq::new(24, |i: int| 0u64));
        r
    }

    /// The slots that have to be refreshed: those whose own revision has changed.
    /// A change of pictures or styles refreshes no font.
    pub fn refresh_font_atlases(&mut self, ui: &pocketjs_core::Ui) -> (r: Vec<u8>)
        ensures
            r@ == changed_slots(old(self)@, host::font_revisions(*ui), host::font_slots(*ui), 24),
            final(self)@ == Seq::new(24, |i: int| host::font_revisions(*ui)[i]),
    {
        let ghost before = self@;
        let ghost now = host::font_revisions(*ui);
        let ghost held = host::font_slots(*ui);
        let mut out: Vec<u8> = Vec::new();
        let mut slot: u8 = 0;
        while slot < 24
            invariant
                slot <= 24,
                before == old(self)@,
                before.len() == 24,
                now == host::font_revisions(*ui),
                held == host::font_slots(*ui),
                out@ == changed_slots(before, now, held, slot as int),
                self@.len() == 24,
                forall|i: int|
                    0 <= i < 24 ==> self@[i] == (if i < slot {
                        now[i]
                    } else {
                        before[i]
                    }),
            decreases 24 - slot,
        {
            let revision: u64 = host::font_atlas_revision(ui, slot);
            if revision != self.last[slot as usize] {
                self.last[slot as usize] = revision;
                if host::has_font_atlas(ui, slot) {
                    out.push(slot);
                }
            }
            slot += 1;
        }
        assert(self@ =~= Seq::new(24, |i: int| now[i]));
        out
    }
}

/// The revision of a core when all its atlases were last refreshed.
pub struct WholeRevision {
    last: u64,
}

impl WholeRevision {
    pub closed spec fn token(&self) -> u64 {
        self.last
    }

    pub fn new() -> (r: Self)
        ensures
            r.token() == 0,
    {
        WholeRevision { last: 0 }
    }

    /// The slots that have to be refreshed where single slots cannot be told
    /// apart: all of them on any change of the core, else none.
    pub fn refresh_font_atlases(&mut self, ui: &pocketjs_core::Ui) -> (r: Vec<u8>)
        ensures
            r@ == (if host::revision_of(*ui) == old(self).token() {
                Seq::empty()
            } else {
                held_slots(host::font_slots(*ui), 24)
            }),
            final(self).token() == host::revision_of(*ui),
    {
        let revision: u64 = host::raster_revision(ui);
        let mut out: Vec<u8> = Vec::new();
        if revision == self.last {
            return out;
        }
        self.last = revision;
        let mut slot: u8 = 0;
        while slot < 24
            invariant
                slot <= 24,
                self.last == host::revision_of(*ui),
                out@ == held_slots(host::font_slots(*ui), slot as int),
            decreases 24 - slot,
        {
            if host::has_font_atlas(ui, slot) {
                out.push(slot);
            }
            slot += 1;
        }
        out
    }
}

/// What the log says of a refresh: the glyph cells that changed, packed as two
/// halves of a word, or all of them where the word is negative.
pub fn refresh_line(slot: u8, dirty: i32) -> (r: String)
    ensures
        r@ == (if dirty >= 0 {
            "gpu: slot "@ + text::dec_text(slot as nat) + " cells "@ + text::dec_text(
                (dirty / 65536) as nat,
            ) + ".."@ + text::dec_text((dirty % 65536) as nat)
        } else {
            "gpu: slot "@ + text::dec_text(slot as nat) + " full refresh"@
        }),
{
    let mut s = "gpu: slot ".to_owned();
    s.append(text::dec(slot as u64).as_str());
    if dirty >= 0 {
        let d: u64 = dirty as u64;
        s.append(" cells ");
        s.append(text::dec(d / 65536).as_str());
        s.append("..");
        s.append(text::dec(d % 65536).as_str());
    } else {
        s.append(" full refresh");
    }
    s
}

/// Once refreshed, a core whose fonts stay as they are has nothing to refresh.
pub proof fn law_refresh_settles(now: Seq<u64>, held: Set<u8>, n: int)
    requires
        0 <= n <= 24,
    ensures
        changed_slots(Seq::new(24, |i: int| now[i]), now, held, n) == Seq::<u8>::empty(),
    decreases n,
{
    if n > 0 {
        law_refresh_settles(now, held, n - 1);
    }
}

/// Glyphs that a slot took are brought to the GPU with the next refresh.
pub proof fn law_taken_glyphs_are_refreshed(
    before: pocketjs_core::Ui,
    after: pocketjs_core::Ui,
    slot: u8,
)
    requires
        slot < 24,
        host::slot_bumped(before, after, slot),
        host::font_slots(after).contains(slot),
    ensures
        changed_slots(
            Seq::new(24, |i: int| host::font_revisions(before)[i]),
            host::font_revisions(after),
            host::font_slots(after),
            24,
        ) == seq![slot],
{
    lemma_one_changed(
        Seq::new(24, |i: int| host::font_revisions(before)[i]),
        host::font_revisions(after),
        host::font_slots(after),
        slot,
        24,
    );
}

proof fn lemma_one_changed(last: Seq<u64>, now: Seq<u64>, held: Set<u8>, slot: u8, n: int)
    requires
        0 <= n <= 24,
        slot < 24,
        held.contains(slot),
        forall|i: int| 0 <= i < 24 ==> (last[i] != #[trigger] now[i] <==> i == slot),
    ensures
        changed_slots(last, now, held, n) == (if n > slot {
            seq![slot]
        } else {
            Seq::empty()
        }),
    decreases n,
{
    if n > 0 {
        lemma_one_changed(last, now, held, slot, n - 1);
        assert(last[n - 1] != now[n - 1] <==> n - 1 == slot);
        assert(Seq::<u8>::empty().push(slot) =~= seq![slot]);
    }
}

} // verus!
