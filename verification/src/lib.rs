//! A codec for Aseprite documents: a little-endian container of a header,
//! frames, and typed chunks within each frame. A document decodes from
//! bytes into a value that can be inspected or built by hand, and encodes
//! back to bytes.
//!
//! Every type that stands on the wire has a decoder `from_read`, which takes
//! a [`Reader`], and an encoder `write`, which appends to a byte vector.
//! Their contracts are stated over three kinds of specification functions:
//!
//! - `spec_read_..` says, for bytes and a position, which value the
//!   decoder returns and where it stops, or with which error it fails;
//! - `bytes` says what a value is on the wire;
//! - `problem` says what stands in the way of encoding a value, if
//!   anything does. An encoder that fails has written nothing.
//!
//! Decoding and encoding stop at the first failure and hand it back as an
//! [`Error`]; neither panics.
//!
//! The laws that tie the two directions together are proved beside the
//! codecs. Each `lemma_.._roundtrip` says that what was written reads back;
//! each `lemma_decoded_..` says that what was read is well formed; each
//! `lemma_.._extends` says that a decoder looks at no byte behind the place
//! where it stops. For whole documents,
//! `lemma_roundtrip_exactly_on_encodings` says of which bytes decoding and
//! encoding again gives the same bytes, and `lemma_cut_document_fails` says
//! that a document cut short does not decode.
pub mod chunk;
pub mod color;
pub mod error;
pub mod frame;
pub mod header;
pub mod helpers;
pub mod list;
pub mod reader;
pub mod wire;
pub mod writer;

pub use crate::chunk::cel_chunk::{Cel, CelChunk};
pub use crate::chunk::cel_extra_chunk::CelExtraChunk;
pub use crate::chunk::color_profile_chunk::{ColorProfileChunk, ProfileType};
pub use crate::chunk::frame_tags_chunk::{FrameTagsChunk, LoopAnimationDirection, Tag};
pub use crate::chunk::layer_chunk::{BlendMode, LayerChunk, LayerType};
pub use crate::chunk::mask_chunk::MaskChunk;
pub use crate::chunk::old_palette_chunk11::OldPaletteChunk11;
pub use crate::chunk::old_palette_chunk4::OldPaletteChunk4;
pub use crate::chunk::palette_chunk::{PaletteChunk, PaletteEntry};
pub use crate::chunk::path_chunk::PathChunk;
pub use crate::chunk::slice_chunk::{NinePatchesInfo, PivotInfo, SliceChunk, SliceKey};
pub use crate::chunk::user_data_chunk::UserDataChunk;
pub use crate::chunk::{
    cel_chunk, cel_extra_chunk, color_profile_chunk, frame_tags_chunk, layer_chunk, mask_chunk,
    old_palette_chunk11, old_palette_chunk4, palette_chunk, path_chunk, slice_chunk,
    user_data_chunk,
};
pub use crate::chunk::{Chunk, ChunkData};
pub use crate::error::{Discriminant, Error, Gated};
pub use crate::frame::Frame;
pub use crate::header::{ColorDepth, Header};
pub use crate::reader::Reader;

use crate::frame::{
    lemma_decoded_frame, lemma_frame_extends, lemma_frame_roundtrip, lemma_frame_sized,
    spec_read_frame, FrameView,
};
use crate::header::{
    header_bytes, lemma_decoded_header, lemma_header_extends, lemma_header_roundtrip,
    spec_read_header, HEADER_SIZE,
};
use crate::list::{
    after, lemma_read_run_done, lemma_read_run_extends, lemma_read_run_holds, lemma_read_run_step,
    lemma_run_bytes_fixed, lemma_run_bytes_push, lemma_run_problem_fixed, lemma_run_problem_none,
    lemma_run_problem_prefix, lemma_run_problem_push, lemma_run_roundtrip_fixed, run_bytes,
    run_problem, seq_view, spec_read_run,
};
use crate::reader::reads;
use crate::wire::{begins, group_placed, lemma_placed_concat, placed};
use crate::writer::{write_bytes, writes};
use vstd::prelude::*;

verus! {

broadcast use Reader::lemma_in_bounds;

/// A document: its header and its frames, in order.
#[derive(Debug, Clone, PartialEq, Eq)]
pub struct Aseprite {
    pub header: Header,
    pub frames: Vec<Frame>,
}

/// The value of an [`Aseprite`] as mathematics: sequences in place of vectors
/// and strings.
pub ghost struct AsepriteView {
    pub header: Header,
    pub frames: Seq<FrameView>,
}

impl View for Aseprite {
    type V = AsepriteView;

    open spec fn view(&self) -> AsepriteView {
        AsepriteView { header: self.header, frames: seq_view(self.frames@) }
    }
}

/// The decoder of one frame, as a value that a run can take.
pub open spec fn frame_reader(depth: ColorDepth) -> spec_fn(Seq<u8>, int) -> Result<
    (FrameView, int),
    Error,
> {
    |s: Seq<u8>, p: int| spec_read_frame(s, p, depth)
}

/// The bytes of one frame, as a value that a run can take.
pub open spec fn frame_bytes() -> spec_fn(FrameView) -> Seq<u8> {
    |v: FrameView| v.bytes()
}

/// The problem of one frame, as a value that a run can take.
pub open spec fn frame_problem() -> spec_fn(FrameView) -> Option<Error> {
    |v: FrameView| v.problem()
}

/// Whether one frame is known to read back, as a value that a run can take.
pub open spec fn frame_sound(depth: ColorDepth) -> spec_fn(FrameView) -> bool {
    |v: FrameView| v.wf(depth) && v.problem() is None
}

/// One frame with its sizes filled in, as a value that a run can take.
pub open spec fn frame_sized() -> spec_fn(FrameView) -> FrameView {
    |v: FrameView| v.sized()
}

/// The document that starts at position `p`: the header, then as many
/// frames as the header declares, each decoded in the depth that the
/// header gives. What follows the last frame is not looked at.
pub open spec fn spec_read_document(s: Seq<u8>, p: int) -> Result<(AsepriteView, int), Error> {
    match spec_read_header(s, p) {
        Err(e) => Err(e),
        Ok((header, q)) => match spec_read_run(
            s,
            q,
            header.frames as nat,
            frame_reader(header.color_depth),
        ) {
            Err(e) => Err(e),
            Ok((frames, end)) => Ok((AsepriteView { header, frames }, end)),
        },
    }
}

impl AsepriteView {
    /// The bytes of the frames of the document, one after the other.
    pub open spec fn frames_bytes(self) -> Seq<u8> {
        run_bytes(self.frames, frame_bytes())
    }

    /// What stands in the way of encoding the document, if anything: the
    /// problem of the first frame that has one, or else more frames than
    /// the 16-bit frame count can say, or a file size that does not fit in
    /// 32 bits.
    pub open spec fn problem(self) -> Option<Error> {
        match run_problem(self.frames, frame_problem()) {
            Some(e) => Some(e),
            None => if self.frames.len() > 0xFFFF || 128 + self.frames_bytes().len() > u32::MAX {
                Some(Error::TooLarge)
            } else {
                None
            },
        }
    }

    /// The document on the wire: the header with the file size and the
    /// frame count that follow from the frames, then the frames.
    pub open spec fn bytes(self) -> Seq<u8> {
        header_bytes(
            self.header,
            (128 + self.frames_bytes().len()) as u32,
            self.frames.len() as u16,
        ) + self.frames_bytes()
    }

    /// The flags of the header hold no bit without a meaning, and every
    /// frame is well formed for the depth of the header.
    pub open spec fn wf(self) -> bool {
        &&& self.header.flags.known()
        &&& forall|i: int|
            0 <= i < self.frames.len() ==> (#[trigger] self.frames[i]).wf(self.header.color_depth)
    }

    /// The document with the size and count fields of its header, its
    /// frames and their chunks set to what the document has on the wire:
    /// what decoding its bytes gives.
    pub open spec fn sized(self) -> AsepriteView {
        AsepriteView {
            header: Header {
                file_size: (128 + self.frames_bytes().len()) as u32,
                frames: self.frames.len() as u16,
                ..self.header
            },
            frames: self.frames.map_values(frame_sized()),
        }
    }
}

impl Aseprite {
    /// Decodes a document: the header, then exactly as many frames as the
    /// header declares. What comes out is well formed.
    #[verifier::loop_isolation(false)]
    pub fn from_read(read: &mut Reader) -> (r: Result<Aseprite, Error>)
        ensures
            reads(
                *old(read),
                *final(read),
                r,
                spec_read_document(old(read).data(), old(read).pos() as int),
            ),
            r is Ok ==> r->Ok_0@.wf() && r->Ok_0@.frames.len() == r->Ok_0@.header.frames,
    {
        proof {
            if spec_read_document(read.data(), read.pos() as int) is Ok {
                lemma_decoded_document(read.data(), read.pos() as int);
            }
        }
        let header: Header = Header::from_read(read)?;
        let ghost s = read.data();
        let ghost p0 = read.pos() as int;
        let ghost one = frame_reader(header.color_depth);
        let mut frames: Vec<Frame> = Vec::new();
        let mut i: u16 = 0;
        while i < header.frames
            invariant
                i <= header.frames,
                read.data() == s,
                after(
                    seq_view(frames@),
                    spec_read_run(s, read.pos() as int, (header.frames - i) as nat, one),
                ) == spec_read_run(s, p0, header.frames as nat, one),
            decreases header.frames - i,
        {
            proof {
                lemma_read_run_step(
                    s,
                    read.pos() as int,
                    (header.frames - i) as nat,
                    one,
                    seq_view(frames@),
                );
            }
            let ghost before = seq_view(frames@);
            let frame: Frame = Frame::from_read(read, &header)?;
            frames.push(frame);
            assert(seq_view(frames@) =~= before.push(frame@));
            i = i + 1;
        }
        proof {
            lemma_read_run_done(s, read.pos() as int, one, seq_view(frames@));
        }
        Ok(Aseprite { header, frames })
    }

    /// Encodes the document. The frames are encoded into a buffer of their
    /// own first, so that the file size is known when the header is
    /// written. Nothing is written where a frame cannot be encoded, or
    /// where the number of frames or the file size does not fit its field.
    pub fn write(&self, wtr: &mut Vec<u8>) -> (r: Result<(), Error>)
        ensures
            writes(old(wtr)@, final(wtr)@, r, self@.problem(), self@.bytes()),
    {
        let ghost views = seq_view(self.frames@);
        let mut frames_buf: Vec<u8> = Vec::new();
        let mut i: usize = 0;
        while i < self.frames.len()
            invariant
                i <= self.frames.len(),
                views == seq_view(self.frames@),
                run_problem(views.take(i as int), frame_problem()) is None,
                frames_buf@ == run_bytes(views.take(i as int), frame_bytes()),
            decreases self.frames.len() - i,
        {
            proof {
                lemma_run_problem_push(views.take(i as int), views[i as int], frame_problem());
                lemma_run_bytes_push(views.take(i as int), views[i as int], frame_bytes());
                assert(views.take(i as int).push(views[i as int]) =~= views.take(i + 1));
                if views[i as int].problem() is Some {
                    lemma_run_problem_prefix(views, i + 1, frame_problem());
                }
            }
            self.frames[i].write(&mut frames_buf)?;
            i = i + 1;
        }
        assert(views.take(i as int) =~= views);
        if self.frames.len() > 0xFFFF || frames_buf.len() > 0xFFFF_FFFF - HEADER_SIZE {
            return Err(Error::TooLarge);
        }
        let _ = self.header.write(wtr, frames_buf.len() as u32, self.frames.len() as u16);
        write_bytes(wtr, frames_buf.as_slice());
        Ok(())
    }
}

/// Filling in the sizes changes neither what a document is on the wire nor
/// what stands in the way of encoding it, and keeps it well formed.
pub proof fn lemma_document_sized(d: AsepriteView)
    ensures
        d.sized().bytes() == d.bytes(),
        d.sized().problem() == d.problem(),
        d.wf() ==> d.sized().wf(),
{
    let depth = d.header.color_depth;
    assert forall|v: FrameView| frame_bytes()(#[trigger] frame_sized()(v)) == frame_bytes()(v) by {
        lemma_frame_sized(v, depth);
    }
    assert forall|v: FrameView| frame_problem()(#[trigger] frame_sized()(v)) == frame_problem()(
        v,
    ) by {
        lemma_frame_sized(v, depth);
    }
    lemma_run_bytes_fixed(d.frames, frame_bytes(), frame_sized());
    lemma_run_problem_fixed(d.frames, frame_problem(), frame_sized());
    if d.wf() {
        assert forall|i: int| 0 <= i < d.sized().frames.len() implies (
        #[trigger] d.sized().frames[i]).wf(depth) by {
            assert(d.frames[i].wf(depth));
            lemma_frame_sized(d.frames[i], depth);
        }
    }
}

/// Encode, then decode: the bytes of a well-formed document that can be
/// encoded decode to that document with its sizes filled in, and the
/// decoder stops at their end.
pub proof fn lemma_document_roundtrip(d: AsepriteView)
    requires
        d.wf(),
        d.problem() is None,
    ensures
        spec_read_document(d.bytes(), 0) == Ok::<(AsepriteView, int), Error>(
            (d.sized(), d.bytes().len() as int),
        ),
{
    broadcast use group_placed;

    let s = d.bytes();
    let depth = d.header.color_depth;
    let head = header_bytes(
        d.header,
        (128 + d.frames_bytes().len()) as u32,
        d.frames.len() as u16,
    );
    assert(s.subrange(0, s.len() as int) =~= s);
    assert(placed(s, 0, head + d.frames_bytes()));
    lemma_placed_concat(s, 0, head, d.frames_bytes());
    lemma_header_roundtrip(
        d.header,
        (128 + d.frames_bytes().len()) as u32,
        d.frames.len() as u16,
        s,
        0,
    );
    let one = frame_reader(depth);
    let sound = frame_sound(depth);
    assert forall|w: FrameView, q: int|
        sound(w) && #[trigger] placed(s, q, frame_bytes()(w)) implies one(s, q) == Ok::<
            (FrameView, int),
            Error,
        >((frame_sized()(w), q + frame_bytes()(w).len())) by {
        lemma_frame_roundtrip(w, depth, s, q);
    }
    assert forall|i: int| 0 <= i < d.frames.len() implies #[trigger] sound(d.frames[i]) by {
        assert(d.frames[i].wf(depth));
        lemma_run_problem_none(d.frames, frame_problem(), i);
    }
    lemma_run_roundtrip_fixed(d.frames, s, 128, one, frame_bytes(), sound, frame_sized());
}

/// Decode, then encode: bytes that are the encoding of a well-formed
/// document decode, and what they decode to encodes to the same bytes
/// again.
pub proof fn lemma_decode_encode_roundtrip(bytes: Seq<u8>, d: AsepriteView)
    requires
        d.wf(),
        d.problem() is None,
        bytes == d.bytes(),
    ensures
        spec_read_document(bytes, 0) is Ok,
        spec_read_document(bytes, 0)->Ok_0.0.problem() is None,
        spec_read_document(bytes, 0)->Ok_0.0.bytes() == bytes,
        spec_read_document(bytes, 0)->Ok_0.1 == bytes.len(),
{
    lemma_document_roundtrip(d);
    lemma_document_sized(d);
}

/// What holds of a document that was decoded: it is well formed, it holds
/// as many frames as its header declares, and the decoder stopped within
/// the input.
pub proof fn lemma_decoded_document(s: Seq<u8>, p: int)
    requires
        spec_read_document(s, p) is Ok,
    ensures
        spec_read_document(s, p)->Ok_0.0.wf(),
        spec_read_document(s, p)->Ok_0.0.frames.len() == spec_read_document(
            s,
            p,
        )->Ok_0.0.header.frames,
        p + 128 <= spec_read_document(s, p)->Ok_0.1 <= s.len(),
{
    lemma_decoded_header(s, p);
    let header = spec_read_header(s, p)->Ok_0.0;
    let depth = header.color_depth;
    let one = frame_reader(depth);
    let good = |v: FrameView| v.wf(depth);
    assert forall|q: int| 0 <= q <= s.len() && (#[trigger] one(s, q)) is Ok implies good(
        one(s, q)->Ok_0.0,
    ) && q <= one(s, q)->Ok_0.1 <= s.len() by {
        lemma_decoded_frame(s, q, depth);
    }
    lemma_read_run_holds(s, p + 128, header.frames as nat, one, good);
}

/// Decoding is stable under encoding again: where bytes decode to a
/// document that can be encoded, the bytes that it encodes to decode to the
/// same document, but for the size fields, which then hold what the
/// document has on the wire.
pub proof fn lemma_reencoded_document_decodes(s: Seq<u8>, p: int)
    requires
        spec_read_document(s, p) is Ok,
        spec_read_document(s, p)->Ok_0.0.problem() is None,
    ensures
        spec_read_document(spec_read_document(s, p)->Ok_0.0.bytes(), 0) == Ok::<
            (AsepriteView, int),
            Error,
        >(
            (
                spec_read_document(s, p)->Ok_0.0.sized(),
                spec_read_document(s, p)->Ok_0.0.bytes().len() as int,
            ),
        ),
{
    lemma_decoded_document(s, p);
    lemma_document_roundtrip(spec_read_document(s, p)->Ok_0.0);
}

/// Whether decoding `bytes` and encoding what came out gives `bytes` again.
pub open spec fn roundtrips(bytes: Seq<u8>) -> bool {
    &&& spec_read_document(bytes, 0) is Ok
    &&& spec_read_document(bytes, 0)->Ok_0.0.problem() is None
    &&& spec_read_document(bytes, 0)->Ok_0.0.bytes() == bytes
}

/// The round trip through the decoder holds of exactly those bytes that
/// are the encoding of a well-formed document. Of other bytes it fails
/// even where they decode: a decoded document is written with its reserved
/// regions zero, its sizes computed, and nothing behind its last frame.
pub proof fn lemma_roundtrip_exactly_on_encodings(bytes: Seq<u8>)
    ensures
        roundtrips(bytes) <==> exists|d: AsepriteView|
            d.wf() && d.problem() is None && #[trigger] d.bytes() == bytes,
{
    if roundtrips(bytes) {
        lemma_decoded_document(bytes, 0);
        let d = spec_read_document(bytes, 0)->Ok_0.0;
        assert(d.wf() && d.problem() is None && d.bytes() == bytes);
    }
    if exists|d: AsepriteView| d.wf() && d.problem() is None && #[trigger] d.bytes() == bytes {
        let d = choose|d: AsepriteView| d.wf() && d.problem() is None && #[trigger] d.bytes() == bytes;
        lemma_decode_encode_roundtrip(bytes, d);
    }
}

/// A document that decodes from `s` decodes to the same from every input
/// that begins with `s`: the decoder looks at no byte behind the place
/// where it stops.
pub proof fn lemma_document_extends(s: Seq<u8>, t: Seq<u8>, p: int)
    requires
        begins(s, t),
        spec_read_document(s, p) is Ok,
    ensures
        spec_read_document(t, p) == spec_read_document(s, p),
{
    lemma_header_extends(s, t, p);
    let header = spec_read_header(s, p)->Ok_0.0;
    let one = frame_reader(header.color_depth);
    assert forall|q: int| (#[trigger] one(s, q)) is Ok implies one(t, q) == one(s, q) by {
        lemma_frame_extends(s, t, q, header.color_depth);
    }
    lemma_read_run_extends(s, t, p + 128, header.frames as nat, one);
}

/// A document cut short does not decode: of the bytes of a well-formed
/// document, no beginning that is shorter than the whole decodes.
pub proof fn lemma_cut_document_fails(d: AsepriteView, k: int)
    requires
        d.wf(),
        d.problem() is None,
        0 <= k < d.bytes().len(),
    ensures
        spec_read_document(d.bytes().take(k), 0) is Err,
{
    let whole = d.bytes();
    let cut = whole.take(k);
    if spec_read_document(cut, 0) is Ok {
        assert(begins(cut, whole));
        lemma_document_extends(cut, whole, 0);
        lemma_decoded_document(cut, 0);
        lemma_document_roundtrip(d);
    }
}

} // verus!
