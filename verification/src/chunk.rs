//! Chunks: the length-prefixed, type-tagged records that a frame is made
//! of, and the dispatch to the codec of each type.
pub mod cel_chunk;
pub mod cel_extra_chunk;
pub mod color_profile_chunk;
pub mod frame_tags_chunk;
pub mod layer_chunk;
pub mod mask_chunk;
pub mod old_palette_chunk11;
pub mod old_palette_chunk4;
pub mod palette_chunk;
pub mod path_chunk;
pub mod slice_chunk;
pub mod user_data_chunk;

use crate::chunk::cel_chunk::{
    lemma_cel_extends, lemma_cel_roundtrip, lemma_decoded_cel, spec_read_cel, CelChunk,
    CelChunkView,
};
use crate::chunk::cel_extra_chunk::{
    lemma_cel_extra_extends, lemma_cel_extra_roundtrip, lemma_decoded_cel_extra,
    spec_read_cel_extra, CelExtraChunk,
};
use crate::chunk::color_profile_chunk::{
    lemma_color_profile_extends, lemma_color_profile_roundtrip, lemma_decoded_color_profile,
    spec_read_color_profile, ColorProfileChunk, ColorProfileChunkView,
};
use crate::chunk::frame_tags_chunk::{
    lemma_decoded_frame_tags, lemma_frame_tags_extends, lemma_frame_tags_roundtrip,
    spec_read_frame_tags, FrameTagsChunk, FrameTagsChunkView,
};
use crate::chunk::layer_chunk::{
    lemma_decoded_layer, lemma_layer_extends, lemma_layer_roundtrip, spec_read_layer, LayerChunk,
    LayerChunkView,
};
use crate::chunk::mask_chunk::{
    lemma_decoded_mask, lemma_mask_extends, lemma_mask_roundtrip, spec_read_mask, MaskChunk,
    MaskChunkView,
};
use crate::chunk::old_palette_chunk11::{
    lemma_decoded_old_palette11, lemma_old_palette11_extends, lemma_old_palette11_roundtrip,
    spec_read_old_palette11, OldPaletteChunk11, OldPaletteChunk11View,
};
use crate::chunk::old_palette_chunk4::{
    lemma_decoded_old_palette4, lemma_old_palette4_extends, lemma_old_palette4_roundtrip,
    spec_read_old_palette4, OldPaletteChunk4, OldPaletteChunk4View,
};
use crate::chunk::palette_chunk::{
    lemma_decoded_palette, lemma_palette_extends, lemma_palette_roundtrip, spec_read_palette,
    PaletteChunk, PaletteChunkView,
};
use crate::chunk::path_chunk::{lemma_path_extends, spec_read_path, PathChunk};
use crate::chunk::slice_chunk::{
    lemma_decoded_slice, lemma_slice_extends, lemma_slice_roundtrip, spec_read_slice, SliceChunk,
    SliceChunkView,
};
use crate::chunk::user_data_chunk::{
    lemma_decoded_user_data, lemma_user_data_extends, lemma_user_data_roundtrip,
    spec_read_user_data, UserDataChunk, UserDataChunkView,
};
use crate::error::{Discriminant, Error};
use crate::header::{ColorDepth, Header};
use crate::reader::{avail, reads, Reader};
use crate::wire::{begins, group_placed, placed, u16_at, u16_bytes, u32_at, u32_bytes};
use crate::writer::{write_bytes, write_u16, write_u32, writes};
use vstd::prelude::*;

verus! {

/// The payload of a chunk, one variant for each type of chunk.
#[derive(Debug, Clone, PartialEq, Eq)]
pub enum ChunkData {
    OldPaletteChunk4(OldPaletteChunk4),
    OldPaletteChunk11(OldPaletteChunk11),
    LayerChunk(LayerChunk),
    CelChunk(CelChunk),
    CelExtraChunk(CelExtraChunk),
    ColorProfileChunk(ColorProfileChunk),
    MaskChunk(MaskChunk),
    PathChunk(PathChunk),
    FrameTagsChunk(FrameTagsChunk),
    PaletteChunk(PaletteChunk),
    UserDataChunk(UserDataChunk),
    SliceChunk(SliceChunk),
}

/// The value of a [`ChunkData`] as mathematics: sequences in place of vectors
/// and strings.
pub ghost enum ChunkDataView {
    OldPaletteChunk4(OldPaletteChunk4View),
    OldPaletteChunk11(OldPaletteChunk11View),
    LayerChunk(LayerChunkView),
    CelChunk(CelChunkView),
    CelExtraChunk(CelExtraChunk),
    ColorProfileChunk(ColorProfileChunkView),
    MaskChunk(MaskChunkView),
    PathChunk(PathChunk),
    FrameTagsChunk(FrameTagsChunkView),
    PaletteChunk(PaletteChunkView),
    UserDataChunk(UserDataChunkView),
    SliceChunk(SliceChunkView),
}

impl View for ChunkData {
    type V = ChunkDataView;

    open spec fn view(&self) -> ChunkDataView {
        match self {
            ChunkData::OldPaletteChunk4(c) => ChunkDataView::OldPaletteChunk4(c@),
            ChunkData::OldPaletteChunk11(c) => ChunkDataView::OldPaletteChunk11(c@),
            ChunkData::LayerChunk(c) => ChunkDataView::LayerChunk(c@),
            ChunkData::CelChunk(c) => ChunkDataView::CelChunk(c@),
            ChunkData::CelExtraChunk(c) => ChunkDataView::CelExtraChunk(c@),
            ChunkData::ColorProfileChunk(c) => ChunkDataView::ColorProfileChunk(c@),
            ChunkData::MaskChunk(c) => ChunkDataView::MaskChunk(c@),
            ChunkData::PathChunk(c) => ChunkDataView::PathChunk(c@),
            ChunkData::FrameTagsChunk(c) => ChunkDataView::FrameTagsChunk(c@),
            ChunkData::PaletteChunk(c) => ChunkDataView::PaletteChunk(c@),
            ChunkData::UserDataChunk(c) => ChunkDataView::UserDataChunk(c@),
            ChunkData::SliceChunk(c) => ChunkDataView::SliceChunk(c@),
        }
    }
}

/// A chunk. `chunk_size` is the length that a decoded chunk declared; a
/// chunk that was built holds 0 there, and on encode the length is computed
/// anew.
#[derive(Debug, Clone, PartialEq, Eq)]
pub struct Chunk {
    pub chunk_size: u32,
    pub chunk_data: ChunkData,
}

/// The value of a [`Chunk`] as mathematics: sequences in place of vectors
/// and strings.
pub ghost struct ChunkView {
    pub chunk_size: u32,
    pub chunk_data: ChunkDataView,
}

impl View for Chunk {
    type V = ChunkView;

    open spec fn view(&self) -> ChunkView {
        ChunkView { chunk_size: self.chunk_size, chunk_data: self.chunk_data@ }
    }
}

/// A decoded payload as the payload of a chunk.
pub open spec fn wrap<V>(
    got: Result<(V, int), Error>,
    variant: spec_fn(V) -> ChunkDataView,
) -> Result<(ChunkDataView, int), Error> {
    match got {
        Ok((v, q)) => Ok((variant(v), q)),
        Err(e) => Err(e),
    }
}

/// The payload of a chunk of type `tag` that declares `size` payload bytes
/// and starts at position `p`, in a document of the given depth. A type
/// that is none of the twelve is refused.
pub open spec fn spec_read_chunk_data(
    s: Seq<u8>,
    p: int,
    tag: u16,
    size: u32,
    depth: ColorDepth,
) -> Result<(ChunkDataView, int), Error> {
    if tag == 0x0004 {
        wrap(spec_read_old_palette4(s, p), |v| ChunkDataView::OldPaletteChunk4(v))
    } else if tag == 0x0011 {
        wrap(spec_read_old_palette11(s, p), |v| ChunkDataView::OldPaletteChunk11(v))
    } else if tag == 0x2004 {
        wrap(spec_read_layer(s, p), |v| ChunkDataView::LayerChunk(v))
    } else if tag == 0x2005 {
        wrap(spec_read_cel(s, p, size, depth), |v| ChunkDataView::CelChunk(v))
    } else if tag == 0x2006 {
        wrap(spec_read_cel_extra(s, p), |v| ChunkDataView::CelExtraChunk(v))
    } else if tag == 0x2007 {
        wrap(spec_read_color_profile(s, p), |v| ChunkDataView::ColorProfileChunk(v))
    } else if tag == 0x2016 {
        wrap(spec_read_mask(s, p), |v| ChunkDataView::MaskChunk(v))
    } else if tag == 0x2017 {
        wrap(spec_read_path(s, p, size as int), |v| ChunkDataView::PathChunk(v))
    } else if tag == 0x2018 {
        wrap(spec_read_frame_tags(s, p), |v| ChunkDataView::FrameTagsChunk(v))
    } else if tag == 0x2019 {
        wrap(spec_read_palette(s, p), |v| ChunkDataView::PaletteChunk(v))
    } else if tag == 0x2020 {
        wrap(spec_read_user_data(s, p), |v| ChunkDataView::UserDataChunk(v))
    } else if tag == 0x2022 {
        wrap(spec_read_slice(s, p), |v| ChunkDataView::SliceChunk(v))
    } else {
        Err(Error::InvalidDiscriminant(Discriminant::ChunkType, tag))
    }
}

/// The chunk that starts at position `p`: a 32-bit length that counts its
/// own six header bytes, a 16-bit type, then the payload.
pub open spec fn spec_read_chunk(s: Seq<u8>, p: int, depth: ColorDepth) -> Result<
    (ChunkView, int),
    Error,
> {
    if !avail(s, p, 6) {
        Err(Error::UnexpectedEof)
    } else if u32_at(s, p) < 6 {
        Err(Error::InvalidChunkSize)
    } else {
        match spec_read_chunk_data(
            s,
            p + 6,
            u16_at(s, p + 4),
            (u32_at(s, p) - 6) as u32,
            depth,
        ) {
            Err(e) => Err(e),
            Ok((chunk_data, q)) => Ok((ChunkView { chunk_size: u32_at(s, p), chunk_data }, q)),
        }
    }
}

impl ChunkDataView {
    /// The value that stands for the type of chunk on the wire.
    pub open spec fn type_code(self) -> u16 {
        match self {
            ChunkDataView::OldPaletteChunk4(_) => 0x0004,
            ChunkDataView::OldPaletteChunk11(_) => 0x0011,
            ChunkDataView::LayerChunk(_) => 0x2004,
            ChunkDataView::CelChunk(_) => 0x2005,
            ChunkDataView::CelExtraChunk(_) => 0x2006,
            ChunkDataView::ColorProfileChunk(_) => 0x2007,
            ChunkDataView::MaskChunk(_) => 0x2016,
            ChunkDataView::PathChunk(_) => 0x2017,
            ChunkDataView::FrameTagsChunk(_) => 0x2018,
            ChunkDataView::PaletteChunk(_) => 0x2019,
            ChunkDataView::UserDataChunk(_) => 0x2020,
            ChunkDataView::SliceChunk(_) => 0x2022,
        }
    }

    /// What stands in the way of encoding the payload, if anything does.
    pub open spec fn problem(self) -> Option<Error> {
        match self {
            ChunkDataView::OldPaletteChunk4(_) => None,
            ChunkDataView::OldPaletteChunk11(_) => None,
            ChunkDataView::LayerChunk(v) => v.problem(),
            ChunkDataView::CelChunk(_) => None,
            ChunkDataView::CelExtraChunk(_) => None,
            ChunkDataView::ColorProfileChunk(v) => v.problem(),
            ChunkDataView::MaskChunk(v) => v.problem(),
            ChunkDataView::PathChunk(_) => None,
            ChunkDataView::FrameTagsChunk(v) => v.problem(),
            ChunkDataView::PaletteChunk(v) => v.problem(),
            ChunkDataView::UserDataChunk(v) => v.problem(),
            ChunkDataView::SliceChunk(v) => v.problem(),
        }
    }

    /// The payload on the wire.
    pub open spec fn bytes(self) -> Seq<u8> {
        match self {
            ChunkDataView::OldPaletteChunk4(v) => v.bytes(),
            ChunkDataView::OldPaletteChunk11(v) => v.bytes(),
            ChunkDataView::LayerChunk(v) => v.bytes(),
            ChunkDataView::CelChunk(v) => v.bytes(),
            ChunkDataView::CelExtraChunk(v) => v.bytes(),
            ChunkDataView::ColorProfileChunk(v) => v.bytes(),
            ChunkDataView::MaskChunk(v) => v.bytes(),
            ChunkDataView::PathChunk(_) => Seq::empty(),
            ChunkDataView::FrameTagsChunk(v) => v.bytes(),
            ChunkDataView::PaletteChunk(v) => v.bytes(),
            ChunkDataView::UserDataChunk(v) => v.bytes(),
            ChunkDataView::SliceChunk(v) => v.bytes(),
        }
    }

    /// Whether the payload is well formed for a document of the given
    /// depth: what its own type asks of it.
    pub open spec fn wf(self, depth: ColorDepth) -> bool {
        match self {
            ChunkDataView::OldPaletteChunk4(v) => v.wf(),
            ChunkDataView::OldPaletteChunk11(v) => v.wf(),
            ChunkDataView::LayerChunk(v) => v.wf(),
            ChunkDataView::CelChunk(v) => v.cel.fits(depth),
            ChunkDataView::CelExtraChunk(v) => v.wf(),
            ChunkDataView::ColorProfileChunk(v) => v.wf(),
            ChunkDataView::MaskChunk(v) => v.wf(),
            ChunkDataView::PathChunk(_) => true,
            ChunkDataView::FrameTagsChunk(v) => v.wf(),
            ChunkDataView::PaletteChunk(v) => v.wf(),
            ChunkDataView::UserDataChunk(v) => v.wf(),
            ChunkDataView::SliceChunk(v) => v.wf(),
        }
    }
}

impl ChunkView {
    /// What stands in the way of encoding the chunk, if anything: the
    /// problem of its payload, or else a payload too long for the length
    /// field.
    pub open spec fn problem(self) -> Option<Error> {
        match self.chunk_data.problem() {
            Some(e) => Some(e),
            None => if 6 + self.chunk_data.bytes().len() > u32::MAX {
                Some(Error::TooLarge)
            } else {
                None
            },
        }
    }

    /// The chunk on the wire. The length is six more than that of the
    /// payload, whatever `chunk_size` holds.
    pub open spec fn bytes(self) -> Seq<u8> {
        u32_bytes((6 + self.chunk_data.bytes().len()) as u32) + u16_bytes(
            self.chunk_data.type_code(),
        ) + self.chunk_data.bytes()
    }

    /// The payload is well formed for a document of the given depth.
    pub open spec fn wf(self, depth: ColorDepth) -> bool {
        self.chunk_data.wf(depth)
    }

    /// The chunk with `chunk_size` set to the length that it has on the
    /// wire: what decoding its bytes gives.
    pub open spec fn sized(self) -> ChunkView {
        ChunkView { chunk_size: (6 + self.chunk_data.bytes().len()) as u32, ..self }
    }
}

impl ChunkData {
    /// The value that stands for the type of chunk on the wire.
    pub fn type_code(&self) -> (c: u16)
        ensures
            c == self@.type_code(),
    {
        match self {
            ChunkData::OldPaletteChunk4(_) => 0x0004,
            ChunkData::OldPaletteChunk11(_) => 0x0011,
            ChunkData::LayerChunk(_) => 0x2004,
            ChunkData::CelChunk(_) => 0x2005,
            ChunkData::CelExtraChunk(_) => 0x2006,
            ChunkData::ColorProfileChunk(_) => 0x2007,
            ChunkData::MaskChunk(_) => 0x2016,
            ChunkData::PathChunk(_) => 0x2017,
            ChunkData::FrameTagsChunk(_) => 0x2018,
            ChunkData::PaletteChunk(_) => 0x2019,
            ChunkData::UserDataChunk(_) => 0x2020,
            ChunkData::SliceChunk(_) => 0x2022,
        }
    }

    /// Encodes the payload with the codec of its type, or writes nothing
    /// where it cannot be encoded.
    pub fn write(&self, wtr: &mut Vec<u8>) -> (r: Result<(), Error>)
        ensures
            writes(old(wtr)@, final(wtr)@, r, self@.problem(), self@.bytes()),
    {
        match self {
            ChunkData::OldPaletteChunk4(inner) => inner.write(wtr),
            ChunkData::OldPaletteChunk11(inner) => inner.write(wtr),
            ChunkData::LayerChunk(inner) => inner.write(wtr),
            ChunkData::CelChunk(inner) => inner.write(wtr),
            ChunkData::CelExtraChunk(inner) => inner.write(wtr),
            ChunkData::ColorProfileChunk(inner) => inner.write(wtr),
            ChunkData::MaskChunk(inner) => inner.write(wtr),
            ChunkData::PathChunk(inner) => {
                let r = inner.write(wtr);
                assert(wtr@ =~= old(wtr)@ + Seq::<u8>::empty());
                r
            },
            ChunkData::FrameTagsChunk(inner) => inner.write(wtr),
            ChunkData::PaletteChunk(inner) => inner.write(wtr),
            ChunkData::UserDataChunk(inner) => inner.write(wtr),
            ChunkData::SliceChunk(inner) => inner.write(wtr),
        }
    }
}

impl Chunk {
    /// A chunk around a payload, with no length declared yet.
    pub fn new(chunk_data: ChunkData) -> (r: Chunk)
        ensures
            r@ == (ChunkView { chunk_size: 0, chunk_data: chunk_data@ }),
    {
        Chunk { chunk_size: 0, chunk_data }
    }

    /// Decodes one chunk: reads length and type, and hands the payload to
    /// the codec of that type. The header gives the depth of raw pixels.
    pub fn from_read(read: &mut Reader, header: &Header) -> (r: Result<Chunk, Error>)
        ensures
            reads(
                *old(read),
                *final(read),
                r,
                spec_read_chunk(old(read).data(), old(read).pos() as int, header.color_depth),
            ),
            r is Ok ==> r->Ok_0@.wf(header.color_depth) && r->Ok_0@.chunk_data.problem() is None,
    {
        proof {
            if spec_read_chunk(read.data(), read.pos() as int, header.color_depth) is Ok {
                lemma_decoded_chunk(read.data(), read.pos() as int, header.color_depth);
            }
        }
        read.need(6)?;
        let chunk_size: u32 = read.read_u32()?;
        let chunk_type: u16 = read.read_u16()?;
        if chunk_size < 6 {
            return Err(Error::InvalidChunkSize);
        }
        let chunk_data_size: u32 = chunk_size - 4 - 2;
        let chunk_data: ChunkData = match chunk_type {
            0x0004 => ChunkData::OldPaletteChunk4(OldPaletteChunk4::from_read(read)?),
            0x0011 => ChunkData::OldPaletteChunk11(OldPaletteChunk11::from_read(read)?),
            0x2004 => ChunkData::LayerChunk(LayerChunk::from_read(read)?),
            0x2005 => ChunkData::CelChunk(CelChunk::from_read(read, chunk_data_size, header)?),
            0x2006 => ChunkData::CelExtraChunk(CelExtraChunk::from_read(read)?),
            0x2007 => ChunkData::ColorProfileChunk(ColorProfileChunk::from_read(read)?),
            0x2016 => ChunkData::MaskChunk(MaskChunk::from_read(read)?),
            0x2017 => ChunkData::PathChunk(PathChunk::from_read(read, chunk_data_size)?),
            0x2018 => ChunkData::FrameTagsChunk(FrameTagsChunk::from_read(read)?),
            0x2019 => ChunkData::PaletteChunk(PaletteChunk::from_read(read)?),
            0x2020 => ChunkData::UserDataChunk(UserDataChunk::from_read(read)?),
            0x2022 => ChunkData::SliceChunk(SliceChunk::from_read(read)?),
            _ => {
                return Err(Error::InvalidDiscriminant(Discriminant::ChunkType, chunk_type));
            },
        };
        Ok(Chunk { chunk_size, chunk_data })
    }

    /// Encodes the chunk. The payload is encoded into a buffer of its own
    /// first, so that its length is known when the header is written.
    /// Nothing is written where the payload cannot be encoded or is too
    /// long for the length field.
    pub fn write(&self, wtr: &mut Vec<u8>) -> (r: Result<(), Error>)
        ensures
            writes(old(wtr)@, final(wtr)@, r, self@.problem(), self@.bytes()),
    {
        let mut chunk_buf: Vec<u8> = Vec::new();
        self.chunk_data.write(&mut chunk_buf)?;
        assert(chunk_buf@ =~= self@.chunk_data.bytes());
        if chunk_buf.len() > 0xFFFF_FFFF - 6 {
            return Err(Error::TooLarge);
        }
        let chunk_size: u32 = chunk_buf.len() as u32;
        write_u32(wtr, 6 + chunk_size);
        write_u16(wtr, self.chunk_data.type_code());
        write_bytes(wtr, chunk_buf.as_slice());
        Ok(())
    }
}

/// A chunk that was written reads back as it was, with its length filled
/// in.
pub proof fn lemma_chunk_roundtrip(v: ChunkView, depth: ColorDepth, s: Seq<u8>, p: int)
    requires
        v.wf(depth),
        v.problem() is None,
        placed(s, p, v.bytes()),
    ensures
        spec_read_chunk(s, p, depth) == Ok::<(ChunkView, int), Error>(
            (v.sized(), p + v.bytes().len()),
        ),
{
    broadcast use group_placed;

    let size = v.chunk_data.bytes().len();
    assert(placed(s, p, u32_bytes((6 + size) as u32)));
    assert(placed(s, p + 4, u16_bytes(v.chunk_data.type_code())));
    assert(placed(s, p + 6, v.chunk_data.bytes()));
    assert(u32_at(s, p) == 6 + size);
    assert(u16_at(s, p + 4) == v.chunk_data.type_code());
    match v.chunk_data {
        ChunkDataView::OldPaletteChunk4(c) => {
            lemma_old_palette4_roundtrip(c, s, p + 6);
        },
        ChunkDataView::OldPaletteChunk11(c) => {
            lemma_old_palette11_roundtrip(c, s, p + 6);
        },
        ChunkDataView::LayerChunk(c) => {
            lemma_layer_roundtrip(c, s, p + 6);
        },
        ChunkDataView::CelChunk(c) => {
            lemma_cel_roundtrip(c, depth, s, p + 6);
        },
        ChunkDataView::CelExtraChunk(c) => {
            lemma_cel_extra_roundtrip(c, s, p + 6);
        },
        ChunkDataView::ColorProfileChunk(c) => {
            lemma_color_profile_roundtrip(c, s, p + 6);
        },
        ChunkDataView::MaskChunk(c) => {
            lemma_mask_roundtrip(c, s, p + 6);
        },
        ChunkDataView::PathChunk(c) => {},
        ChunkDataView::FrameTagsChunk(c) => {
            lemma_frame_tags_roundtrip(c, s, p + 6);
        },
        ChunkDataView::PaletteChunk(c) => {
            lemma_palette_roundtrip(c, s, p + 6);
        },
        ChunkDataView::UserDataChunk(c) => {
            lemma_user_data_roundtrip(c, s, p + 6);
        },
        ChunkDataView::SliceChunk(c) => {
            lemma_slice_roundtrip(c, s, p + 6);
        },
    }
}

/// Whether `tag` is the wire value of one of the twelve types of chunk.
pub open spec fn is_chunk_type(tag: u16) -> bool {
    tag == 0x0004 || tag == 0x0011 || tag == 0x2004 || tag == 0x2005 || tag == 0x2006 || tag
        == 0x2007 || tag == 0x2016 || tag == 0x2017 || tag == 0x2018 || tag == 0x2019 || tag
        == 0x2020 || tag == 0x2022
}

/// A chunk whose type is none of the twelve is refused, whatever follows
/// its header, provided that the six header bytes are there and declare a
/// length of at least six.
pub proof fn lemma_unknown_chunk_type(s: Seq<u8>, p: int, depth: ColorDepth)
    requires
        avail(s, p, 6),
        u32_at(s, p) >= 6,
        !is_chunk_type(u16_at(s, p + 4)),
    ensures
        spec_read_chunk(s, p, depth) == Err::<(ChunkView, int), Error>(
            Error::InvalidDiscriminant(Discriminant::ChunkType, u16_at(s, p + 4)),
        ),
{
}

/// What holds of a chunk that was decoded: its payload is well formed for
/// the depth that it was decoded in and can be encoded, and the decoder
/// stopped within the input, behind the six header bytes.
pub proof fn lemma_decoded_chunk(s: Seq<u8>, p: int, depth: ColorDepth)
    requires
        spec_read_chunk(s, p, depth) is Ok,
    ensures
        spec_read_chunk(s, p, depth)->Ok_0.0.wf(depth),
        spec_read_chunk(s, p, depth)->Ok_0.0.chunk_data.problem() is None,
        p + 6 <= spec_read_chunk(s, p, depth)->Ok_0.1 <= s.len(),
{
    let tag = u16_at(s, p + 4);
    let size = (u32_at(s, p) - 6) as u32;
    let q = p + 6;
    if tag == 0x0004 {
        lemma_decoded_old_palette4(s, q);
    } else if tag == 0x0011 {
        lemma_decoded_old_palette11(s, q);
    } else if tag == 0x2004 {
        lemma_decoded_layer(s, q);
    } else if tag == 0x2005 {
        lemma_decoded_cel(s, q, size, depth);
    } else if tag == 0x2006 {
        lemma_decoded_cel_extra(s, q);
    } else if tag == 0x2007 {
        lemma_decoded_color_profile(s, q);
    } else if tag == 0x2016 {
        lemma_decoded_mask(s, q);
    } else if tag == 0x2017 {
    } else if tag == 0x2018 {
        lemma_decoded_frame_tags(s, q);
    } else if tag == 0x2019 {
        lemma_decoded_palette(s, q);
    } else if tag == 0x2020 {
        lemma_decoded_user_data(s, q);
    } else if tag == 0x2022 {
        lemma_decoded_slice(s, q);
    }
}

/// A chunk that decodes from `s` decodes to the same from every input that
/// begins with `s`: the decoder looks at no byte behind the place where it
/// stops.
pub proof fn lemma_chunk_extends(s: Seq<u8>, t: Seq<u8>, p: int, depth: ColorDepth)
    requires
        begins(s, t),
        spec_read_chunk(s, p, depth) is Ok,
    ensures
        spec_read_chunk(t, p, depth) == spec_read_chunk(s, p, depth),
{
    let tag = u16_at(s, p + 4);
    let size = (u32_at(s, p) - 6) as u32;
    let q = p + 6;
    assert(s[p] == t[p] && s[p + 5] == t[p + 5]);
    if tag == 0x0004 {
        lemma_old_palette4_extends(s, t, q);
    } else if tag == 0x0011 {
        lemma_old_palette11_extends(s, t, q);
    } else if tag == 0x2004 {
        lemma_layer_extends(s, t, q);
    } else if tag == 0x2005 {
        lemma_cel_extends(s, t, q, size, depth);
    } else if tag == 0x2006 {
        lemma_cel_extra_extends(s, t, q);
    } else if tag == 0x2007 {
        lemma_color_profile_extends(s, t, q);
    } else if tag == 0x2016 {
        lemma_mask_extends(s, t, q);
    } else if tag == 0x2017 {
        lemma_path_extends(s, t, q, size as int);
    } else if tag == 0x2018 {
        lemma_frame_tags_extends(s, t, q);
    } else if tag == 0x2019 {
        lemma_palette_extends(s, t, q);
    } else if tag == 0x2020 {
        lemma_user_data_extends(s, t, q);
    } else if tag == 0x2022 {
        lemma_slice_extends(s, t, q);
    }
}

} // verus!
