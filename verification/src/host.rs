//! The interface core of the host, and what the library asks of it.

use vstd::prelude::*;

verus! {

/// The interface core: tree, styles, fonts and textures.
#[verifier::external_type_specification]
#[verifier::external_body]
pub struct ExUi(pocketjs_core::Ui);

/// Font slots of the interface core.
pub const MAX_FONT_SLOTS: usize = 24;

/// The live textures of a core: the pixels behind each handle.
pub uninterp spec fn textures(ui: pocketjs_core::Ui) -> Map<i32, Seq<u8>>;

/// The token that a core changes with its texture, font and style contents.
pub uninterp spec fn revision_of(ui: pocketjs_core::Ui) -> u64;

/// The words of the draw list that a core last produced.
pub uninterp spec fn draw_list(ui: pocketjs_core::Ui) -> Seq<u32>;

/// The revision of each font slot of a core.
pub uninterp spec fn font_revisions(ui: pocketjs_core::Ui) -> Seq<u64>;

/// The font slots of a core in which an atlas is registered.
pub uninterp spec fn font_slots(ui: pocketjs_core::Ui) -> Set<u8>;

/// Whether `Ui::font_stream_configure` accepts a descriptor: it follows from the
/// core and the bytes.
pub uninterp spec fn configured(ui: pocketjs_core::Ui, b: Seq<u8>) -> bool;

/// How many glyphs `Ui::font_stream_commit` takes: it follows from the core and
/// the bytes.
pub uninterp spec fn committed(ui: pocketjs_core::Ui, b: Seq<u8>) -> usize;

/// What `Ui::font_stream_batch` answers: it follows from the core and the bytes.
pub uninterp spec fn batch_answer(ui: pocketjs_core::Ui, b: Seq<u8>) -> i32;

/// A side that a texture may have: a power of two.
pub open spec fn texture_side(v: u32) -> bool {
    v == 1 || v == 2 || v == 4 || v == 8 || v == 16 || v == 32 || v == 64 || v == 128 || v == 256
        || v == 512
}

/// What an upload did: a new handle for the pixels beside the textures that were
/// there, and the token counts on; or -1 and nothing.
pub open spec fn uploaded(
    before: pocketjs_core::Ui,
    after: pocketjs_core::Ui,
    handle: i32,
    pixels: Seq<u8>,
) -> bool {
    if handle >= 0 {
        !textures(before).dom().contains(handle) && textures(after) == textures(before).insert(
            handle,
            pixels,
        ) && revision_of(after) == revision_of(before).wrapping_add(1)
    } else {
        handle == -1 && textures(after) == textures(before) && revision_of(after) == revision_of(
            before,
        )
    }
}

/// `Ui::raster_revision`: reads the token.
#[verifier::external_body]
pub(crate) fn raster_revision(ui: &pocketjs_core::Ui) -> (r: u64)
    ensures
        r == revision_of(*ui),
{
    ui.raster_revision()
}

/// `Ui::draw`: walks the tree into the draw list and gives it back. What the
/// words are follows from the whole state of the core and is not stated; they are
/// those of the list that the core holds from then on.
#[verifier::external_body]
pub(crate) fn draw_words(ui: &mut pocketjs_core::Ui) -> (r: Vec<u32>)
    ensures
        r@ == draw_list(*final(ui)),
{
    ui.draw().words.clone()
}

/// `Ui::upload_texture` with four bytes a pixel: copies the first bytes of the
/// data into a free texture slot, counts the token on and gives the handle, or
/// gives -1 and changes nothing. It always gives -1 for a side that a texture
/// cannot have and for data shorter than the picture; whether memory and a slot
/// are left otherwise is not stated.
#[verifier::external_body]
pub(crate) fn upload_texture(ui: &mut pocketjs_core::Ui, data: &[u8], w: u32, h: u32) -> (r: i32)
    ensures
        r >= -1,
        r >= 0 ==> !textures(*old(ui)).dom().contains(r) && textures(*final(ui)) == textures(
            *old(ui),
        ).insert(r, data@.take(w * h * 4)) && revision_of(*final(ui)) == revision_of(
            *old(ui),
        ).wrapping_add(1),
        r == -1 ==> textures(*final(ui)) == textures(*old(ui)) && revision_of(*final(ui))
            == revision_of(*old(ui)),
        !texture_side(w) || !texture_side(h) || data@.len() < w * h * 4 ==> r == -1,
{
    ui.upload_texture(data, w, h, pocketjs_core::spec::psm::PSM_8888)
}

/// `Ui::font_atlas_revision`: the revision of one font slot, zero for a slot
/// beyond the last.
#[verifier::external_body]
pub(crate) fn font_atlas_revision(ui: &pocketjs_core::Ui, slot: u8) -> (r: u64)
    ensures
        slot < MAX_FONT_SLOTS ==> r == font_revisions(*ui)[slot as int],
        slot >= MAX_FONT_SLOTS ==> r == 0,
{
    ui.font_atlas_revision(slot)
}

/// `Ui::font_atlas`: whether an atlas is registered in a slot.
#[verifier::external_body]
pub(crate) fn has_font_atlas(ui: &pocketjs_core::Ui, slot: u8) -> (r: bool)
    ensures
        r == font_slots(*ui).contains(slot),
{
    ui.font_atlas(slot).is_some()
}

/// Whether a core counts on from `before` to `after` in one font slot, and in its
/// token.
pub open spec fn slot_bumped(before: pocketjs_core::Ui, after: pocketjs_core::Ui, slot: u8) -> bool {
    &&& revision_of(after) == revision_of(before).wrapping_add(1)
    &&& forall|i: int|
        0 <= i < MAX_FONT_SLOTS ==> #[trigger] font_revisions(after)[i] == (if i == slot {
            font_revisions(before)[i].wrapping_add(1)
        } else {
            font_revisions(before)[i]
        })
}

/// `Ui::font_stream_configure`: gives a font slot room for streamed glyphs, or
/// takes it away. Whether it accepts the descriptor is left to the name, but that
/// it refuses all but twenty bytes for a slot that holds an atlas. Accepted, the
/// slot's revision and the token count on; refused, nothing changes.
#[verifier::external_body]
pub(crate) fn font_stream_configure(ui: &mut pocketjs_core::Ui, b: &[u8]) -> (r: bool)
    ensures
        r == configured(*old(ui), b@),
        r ==> b@.len() == 20 && b@[8] < MAX_FONT_SLOTS && font_slots(*old(ui)).contains(b@[8])
            && slot_bumped(*old(ui), *final(ui), b@[8]),
        !r ==> revision_of(*final(ui)) == revision_of(*old(ui)) && font_revisions(*final(ui))
            == font_revisions(*old(ui)),
        font_slots(*final(ui)) == font_slots(*old(ui)),
{
    ui.font_stream_configure(b)
}

/// `Ui::font_stream_commit`: takes the pixels of at most four glyphs and gives
/// how many it took, which is left to the name. Where it took any, the slot's
/// revision and the token count on; else nothing of them changes.
#[verifier::external_body]
pub(crate) fn font_stream_commit(ui: &mut pocketjs_core::Ui, b: &[u8]) -> (r: usize)
    ensures
        r == committed(*old(ui), b@),
        r <= 4,
        b@.len() < 12 ==> r == 0,
        r > 0 ==> b@[8] < MAX_FONT_SLOTS && font_slots(*old(ui)).contains(b@[8]) && slot_bumped(
            *old(ui),
            *final(ui),
            b@[8],
        ),
        r == 0 ==> revision_of(*final(ui)) == revision_of(*old(ui)) && font_revisions(*final(ui))
            == font_revisions(*old(ui)),
        font_slots(*final(ui)) == font_slots(*old(ui)),
{
    ui.font_stream_commit(b)
}

/// `Ui::font_stream_batch`: keeps, asks after or releases a set of glyphs. The
/// answer is 1 for ready, 0 for pending, -1 for missing, -2 for too many and -3
/// for a request that is no request; one shorter than sixteen bytes is none.
/// Which of them it is otherwise is left to the name. No revision changes.
#[verifier::external_body]
pub(crate) fn font_stream_batch(ui: &mut pocketjs_core::Ui, b: &[u8]) -> (r: i32)
    ensures
        r == batch_answer(*old(ui), b@),
        -3 <= r <= 1,
        b@.len() < 16 || b@.len() % 4 != 0 ==> r == -3,
        revision_of(*final(ui)) == revision_of(*old(ui)),
        font_revisions(*final(ui)) == font_revisions(*old(ui)),
        font_slots(*final(ui)) == font_slots(*old(ui)),
{
    ui.font_stream_batch(b)
}

} // verus!
