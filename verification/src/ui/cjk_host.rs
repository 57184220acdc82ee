//! Requests of the interface for local work, once the script engine has taken
//! them apart.

use vstd::prelude::*;
use crate::host;
use crate::text;

verus! {

/// Bytes of a request as the interface sends it, at most.
pub const MAX_REQUEST: usize = 4096;

/// Bytes of a path, one more than the longest.
pub const PATH_BYTES: usize = 128;

/// Glyphs in one batch, at most.
pub const MAX_BATCH: u32 = 4;

/// What a request asks for.
#[derive(Clone, Copy, Debug, PartialEq, Eq, Structural)]
pub enum Op {
    Unknown,
    FontOpen,
    FontGlyphs,
    FontStats,
    ReadText,
    FontClose,
}

pub open spec fn op_of(method: Seq<char>) -> Op {
    if method == "font.open"@ {
        Op::FontOpen
    } else if method == "font.glyphs"@ {
        Op::FontGlyphs
    } else if method == "font.stats"@ {
        Op::FontStats
    } else if method == "fs.read-text"@ {
        Op::ReadText
    } else if method == "font.close"@ {
        Op::FontClose
    } else {
        Op::Unknown
    }
}

fn op(method: &str) -> (r: Op)
    ensures
        r == op_of(method@),
{
    if text::same_text(method, "font.open") {
        Op::FontOpen
    } else if text::same_text(method, "font.glyphs") {
        Op::FontGlyphs
    } else if text::same_text(method, "font.stats") {
        Op::FontStats
    } else if text::same_text(method, "fs.read-text") {
        Op::ReadText
    } else if text::same_text(method, "font.close") {
        Op::FontClose
    } else {
        Op::Unknown
    }
}

/// The number that the worker knows an operation by.
pub fn op_code(op: Op) -> (r: u8)
    ensures
        r == (match op {
            Op::Unknown => 0u8,
            Op::FontOpen => 1u8,
            Op::FontGlyphs => 2u8,
            Op::FontStats => 3u8,
            Op::ReadText => 4u8,
            Op::FontClose => 5u8,
        }),
{
    match op {
        Op::Unknown => 0,
        Op::FontOpen => 1,
        Op::FontGlyphs => 2,
        Op::FontStats => 3,
        Op::ReadText => 4,
        Op::FontClose => 5,
    }
}

/// A request for the local worker.
pub struct LocalRequest {
    pub id: u32,
    pub op: Op,
    /// The bytes of a path, for the operations that take one.
    pub path: Vec<u8>,
    pub generation: u32,
    pub slot: u8,
    /// The glyphs that are asked for.
    pub cps: Vec<u32>,
}

/// What a [`LocalRequest`] says.
#[verifier::ext_equal]
pub struct RequestView {
    pub id: u32,
    pub op: Op,
    pub path: Seq<u8>,
    pub generation: u32,
    pub slot: u8,
    pub cps: Seq<u32>,
}

impl View for LocalRequest {
    type V = RequestView;

    open spec fn view(&self) -> RequestView {
        RequestView {
            id: self.id,
            op: self.op,
            path: self.path@,
            generation: self.generation,
            slot: self.slot,
            cps: self.cps@,
        }
    }
}

/// What the head of a request comes to.
pub enum Head {
    Refused,
    /// It goes to the worker as it is.
    Submit(LocalRequest),
    /// Its payload is a batch of glyphs, still to be taken apart.
    Glyphs,
}

/// The meaning of the head of a request.
pub enum HeadView {
    Refused,
    Submit(RequestView),
    Glyphs,
}

impl View for Head {
    type V = HeadView;

    open spec fn view(&self) -> HeadView {
        match self {
            Head::Refused => HeadView::Refused,
            Head::Submit(r) => HeadView::Submit(r@),
            Head::Glyphs => HeadView::Glyphs,
        }
    }
}

/// Whether a request is short enough to be read.
pub fn takes_request(bytes: &[u8]) -> (r: bool)
    ensures
        r == (bytes@.len() <= MAX_REQUEST),
{
    bytes.len() <= MAX_REQUEST
}

pub open spec fn plain_request(id: u32, op: Op, path: Seq<u8>) -> RequestView {
    RequestView { id, op, path, generation: 0, slot: 0, cps: Seq::empty() }
}

/// A request of the first version with an id is taken. A path must be short, and
/// a batch of glyphs must hold no zero character.
pub open spec fn head_of(version: u32, id: u32, method: Seq<char>, payload: Seq<char>) -> HeadView {
    let op = op_of(method);
    let bytes = vstd::utf8::encode_utf8(payload);
    if version != 1 || id == 0 {
        HeadView::Refused
    } else if op == Op::FontOpen || op == Op::ReadText {
        if bytes.len() >= PATH_BYTES {
            HeadView::Refused
        } else {
            HeadView::Submit(plain_request(id, op, bytes))
        }
    } else if op == Op::FontGlyphs {
        if text::has_zero(payload) {
            HeadView::Refused
        } else {
            HeadView::Glyphs
        }
    } else {
        HeadView::Submit(plain_request(id, op, Seq::empty()))
    }
}

/// Reads the head of a request.
pub fn local_submit(version: u32, id: u32, method: &str, payload: &str) -> (r: Head)
    ensures
        r@ == head_of(version, id, method@, payload@),
{
    if version != 1 || id == 0 {
        return Head::Refused;
    }
    let op = op(method);
    let mut path: Vec<u8> = Vec::new();
    if op == Op::FontOpen || op == Op::ReadText {
        let bytes = payload.as_bytes();
        if bytes.len() >= PATH_BYTES {
            return Head::Refused;
        }
        path = vstd::slice::slice_to_vec(bytes);
    }
    if op == Op::FontGlyphs {
        if text::contains_zero(payload) {
            return Head::Refused;
        }
        return Head::Glyphs;
    }
    let cps: Vec<u32> = Vec::new();
    let req = LocalRequest { id, op, path, generation: 0, slot: 0, cps };
    assert(op != Op::FontOpen && op != Op::ReadText ==> req@ =~= plain_request(
        id,
        op,
        Seq::empty(),
    ));
    assert(op == Op::FontOpen || op == Op::ReadText ==> req@ =~= plain_request(
        id,
        op,
        vstd::utf8::encode_utf8(payload@),
    ));
    Head::Submit(req)
}

/// How many glyphs of a batch are read: none if the count or the slot is out of
/// bounds.
pub fn batch_count(count: u32, slot: u32) -> (r: u32)
    ensures
        r == (if 1 <= count <= MAX_BATCH && slot < 24 {
            count
        } else {
            0
        }),
{
    if count >= 1 && count <= MAX_BATCH && slot < 24 {
        count
    } else {
        0
    }
}

/// Reads a batch of glyphs: one to four of them, in a slot that exists. `cps`
/// holds as many as [`batch_count`] allows.
pub fn local_glyphs(id: u32, generation: u32, slot: u32, count: u32, cps: &[u32]) -> (r: Option<
    LocalRequest,
>)
    requires
        1 <= count <= MAX_BATCH && slot < 24 ==> cps@.len() >= count,
    ensures
        match r {
            Some(q) => 1 <= count <= MAX_BATCH && slot < 24 && q@ == (RequestView {
                id,
                op: Op::FontGlyphs,
                path: Seq::empty(),
                generation,
                slot: slot as u8,
                cps: cps@.take(count as int),
            }),
            None => !(1 <= count <= MAX_BATCH && slot < 24),
        },
{
    let n: u32 = batch_count(count, slot);
    if n == 0 {
        return None;
    }
    let part = vstd::slice::slice_subrange(cps, 0, n as usize);
    let q = LocalRequest {
        id,
        op: Op::FontGlyphs,
        path: Vec::new(),
        generation,
        slot: slot as u8,
        cps: vstd::slice::slice_to_vec(part),
    };
    assert(q@ =~= RequestView {
        id,
        op: Op::FontGlyphs,
        path: Seq::empty(),
        generation,
        slot: slot as u8,
        cps: cps@.take(count as int),
    });
    Some(q)
}

/// The part of a buffer that a view of it covers, if it lies within.
pub fn view_range(offset: i32, length: i32, buffer: usize) -> (r: Option<(usize, usize)>)
    ensures
        r == (if offset < 0 || length < 0 || offset + length > buffer {
            None
        } else {
            Some((offset as usize, length as usize))
        }),
{
    if offset < 0 || length < 0 {
        return None;
    }
    if offset as u64 + length as u64 > buffer as u64 {
        return None;
    }
    Some((offset as usize, length as usize))
}

/// Gives a font slot room for streamed glyphs; without a descriptor nothing is
/// done.
pub fn font_stream_configure(ui: &mut pocketjs_core::Ui, descriptor: Option<&[u8]>) -> (r: bool)
    ensures
        descriptor matches Some(b) ==> r == host::configured(*old(ui), b@),
        match descriptor {
            Some(b) => (r ==> b@.len() == 20 && b@[8] < 24 && host::font_slots(*old(ui)).contains(
                b@[8],
            ) && host::slot_bumped(*old(ui), *final(ui), b@[8])) && (!r ==> host::revision_of(
                *final(ui),
            ) == host::revision_of(*old(ui)) && host::font_revisions(*final(ui))
                == host::font_revisions(*old(ui))),
            None => !r && *final(ui) == *old(ui),
        },
{
    match descriptor {
        Some(b) => host::font_stream_configure(ui, b),
        None => false,
    }
}

/// Hands over the pixels of glyphs and says how many were taken; without any
/// none is.
pub fn font_stream_commit(ui: &mut pocketjs_core::Ui, glyphs: Option<&[u8]>) -> (r: i32)
    ensures
        glyphs matches Some(b) ==> r == host::committed(*old(ui), b@),
        0 <= r <= 4,
        match glyphs {
            Some(b) => (b@.len() < 12 ==> r == 0) && (r > 0 ==> b@[8] < 24 && host::font_slots(
                *old(ui),
            ).contains(b@[8]) && host::slot_bumped(*old(ui), *final(ui), b@[8])) && (r == 0
                ==> host::revision_of(*final(ui)) == host::revision_of(*old(ui))
                && host::font_revisions(*final(ui)) == host::font_revisions(*old(ui))),
            None => r == 0 && *final(ui) == *old(ui),
        },
{
    match glyphs {
        Some(b) => host::font_stream_commit(ui, b) as i32,
        None => 0,
    }
}

/// Keeps, asks after or releases a set of glyphs; without a request the answer is
/// that it is none.
pub fn font_stream_batch(ui: &mut pocketjs_core::Ui, request: Option<&[u8]>) -> (r: i32)
    ensures
        request matches Some(b) ==> r == host::batch_answer(*old(ui), b@),
        -3 <= r <= 1,
        match request {
            Some(b) => (b@.len() < 16 || b@.len() % 4 != 0 ==> r == -3) && host::revision_of(
                *final(ui),
            ) == host::revision_of(*old(ui)) && host::font_revisions(*final(ui))
                == host::font_revisions(*old(ui)),
            None => r == -3 && *final(ui) == *old(ui),
        },
{
    match request {
        Some(b) => host::font_stream_batch(ui, b),
        None => -3,
    }
}

/// A string argument as it is used: nothing where it is longer than a request may
/// be.
pub fn local_string(bytes: &[u8]) -> (r: String)
    ensures
        r@ == (if bytes@.len() <= MAX_REQUEST {
            text::lossy_text(bytes@)
        } else {
            ""@
        }),
{
    if bytes.len() <= MAX_REQUEST {
        text::from_utf8_lossy(bytes)
    } else {
        "".to_owned()
    }
}

/// Whatever goes to the worker fits its buffers: a path with room for the closing
/// zero, at most four glyphs.
pub proof fn law_requests_fit(version: u32, id: u32, method: Seq<char>, payload: Seq<char>)
    ensures
        match head_of(version, id, method, payload) {
            HeadView::Submit(q) => q.id != 0 && q.path.len() < PATH_BYTES && q.cps.len() <= MAX_BATCH,
            _ => true,
        },
{
}

} // verus!
