//! The cel chunk: the pixels of one layer in one frame, or a reference to
//! the frame that holds them.
use crate::color::{
    lemma_grayscale_extends, lemma_grayscale_roundtrip, lemma_indexed_extends,
    lemma_indexed_roundtrip, lemma_rgba_extends, lemma_rgba_roundtrip, pixels_bytes,
    spec_read_grayscale, spec_read_indexed, spec_read_rgba, Pixels, PixelsView,
};
use crate::error::{Discriminant, Error};
use crate::header::{ColorDepth, Header};
use crate::helpers::read_bytes;
use crate::reader::{avail, reads, Reader};
use crate::wire::{begins, group_placed, i16_at, i16_bytes, placed, u16_at, u16_bytes, zeros};
use crate::writer::{write_bytes, write_i16, write_u16, write_u8, write_zeros};
use flate2::read::ZlibDecoder;
use std::io::Read;
use vstd::prelude::*;

verus! {

/// What the zlib decoder of `flate2` makes of `data`: the bytes that it
/// inflates to, or nothing where the decoder reports an error. The library
/// says no more of it than that it depends on `data` alone.
pub uninterp spec fn zlib_inflate(data: Seq<u8>) -> Option<Seq<u8>>;

/// Makes a `flate2::read::ZlibDecoder` over `data` and reads it to its end
/// with `read_to_end`. The contract names what comes out, the bytes or the
/// failure, as [`zlib_inflate`] of `data`, and claims nothing else of it.
#[verifier::external_body]
fn inflate(data: &[u8]) -> (r: Option<Vec<u8>>)
    ensures
        match (r, zlib_inflate(data@)) {
            (Some(out), Some(raw)) => out@ == raw,
            (None, None) => true,
            _ => false,
        },
{
    let mut decoder = ZlibDecoder::new(data);
    let mut out = Vec::new();
    match decoder.read_to_end(&mut out) {
        Ok(_) => Some(out),
        Err(_) => None,
    }
}

/// The content of a cel: pixels, a reference to another frame, or pixels
/// still compressed.
#[derive(Debug, Clone, PartialEq, Eq)]
pub enum Cel {
    RawCel { width: u16, height: u16, pixels: Pixels },
    /// The cel of the same layer in the frame at `frame_position` stands for
    /// this one.
    LinkedCel { frame_position: u16 },
    /// The pixels are held as the zlib stream that stood on the wire.
    CompressedImage { width: u16, height: u16, zlib_compressed_data: Vec<u8> },
}

/// The value of a [`Cel`] as mathematics: sequences in place of vectors
/// and strings.
pub ghost enum CelView {
    RawCel { width: u16, height: u16, pixels: PixelsView },
    LinkedCel { frame_position: u16 },
    CompressedImage { width: u16, height: u16, zlib_compressed_data: Seq<u8> },
}

impl View for Cel {
    type V = CelView;

    open spec fn view(&self) -> CelView {
        match self {
            Cel::RawCel { width, height, pixels } => CelView::RawCel {
                width: *width,
                height: *height,
                pixels: pixels@,
            },
            Cel::LinkedCel { frame_position } => CelView::LinkedCel {
                frame_position: *frame_position,
            },
            Cel::CompressedImage { width, height, zlib_compressed_data } => CelView::CompressedImage {
                width: *width,
                height: *height,
                zlib_compressed_data: zlib_compressed_data@,
            },
        }
    }
}

/// A cel: where it lies on its layer, how opaque it is, and what it holds.
#[derive(Debug, Clone, PartialEq, Eq)]
pub struct CelChunk {
    pub layer_index: u16,
    pub x_position: i16,
    pub y_position: i16,
    pub opacity_level: u8,
    pub cel: Cel,
}

/// The value of a [`CelChunk`] as mathematics: sequences in place of vectors
/// and strings.
pub ghost struct CelChunkView {
    pub layer_index: u16,
    pub x_position: i16,
    pub y_position: i16,
    pub opacity_level: u8,
    pub cel: CelView,
}

impl View for CelChunk {
    type V = CelChunkView;

    open spec fn view(&self) -> CelChunkView {
        CelChunkView {
            layer_index: self.layer_index,
            x_position: self.x_position,
            y_position: self.y_position,
            opacity_level: self.opacity_level,
            cel: self.cel@,
        }
    }
}

/// A region of `size` bytes as pixels of the given depth.
pub open spec fn spec_read_pixels(s: Seq<u8>, p: int, size: int, depth: ColorDepth) -> Result<
    (PixelsView, int),
    Error,
> {
    match depth {
        ColorDepth::Indexed => spec_read_indexed(s, p, size),
        ColorDepth::Grayscale => spec_read_grayscale(s, p, size),
        ColorDepth::RGBA => spec_read_rgba(s, p, size),
    }
}

/// All of `raw` as pixels of the given depth, where its length allows it.
pub open spec fn spec_decode_pixels(raw: Seq<u8>, depth: ColorDepth) -> Option<PixelsView> {
    match spec_read_pixels(raw, 0, raw.len() as int, depth) {
        Ok((pixels, _)) => Some(pixels),
        Err(_) => None,
    }
}

/// The pixels of a cel in a document of the given depth: those of a raw cel
/// as they are, those of a compressed image inflated and decoded, none for
/// a linked cel.
pub open spec fn spec_cel_pixels(cel: CelView, depth: ColorDepth) -> Option<PixelsView> {
    match cel {
        CelView::RawCel { pixels, .. } => Some(pixels),
        CelView::LinkedCel { .. } => None,
        CelView::CompressedImage { zlib_compressed_data, .. } => match zlib_inflate(
            zlib_compressed_data,
        ) {
            None => None,
            Some(raw) => spec_decode_pixels(raw, depth),
        },
    }
}

/// The view of pixels that may be absent.
pub open spec fn pixels_view(pixels: Option<Pixels>) -> Option<PixelsView> {
    match pixels {
        Some(px) => Some(px@),
        None => None,
    }
}

/// The image part of a cel, which starts at `p + 16` in a payload of `size`
/// bytes that starts at `p`: width and height, then whatever is left of the
/// payload.
pub open spec fn spec_read_image(s: Seq<u8>, p: int, size: int, depth: ColorDepth, raw: bool) -> Result<
    (CelView, int),
    Error,
> {
    if !avail(s, p + 16, 4) {
        Err(Error::UnexpectedEof)
    } else if size < 20 {
        Err(Error::InvalidChunkSize)
    } else if raw {
        match spec_read_pixels(s, p + 20, size - 20, depth) {
            Err(e) => Err(e),
            Ok((pixels, q)) => Ok(
                (
                    CelView::RawCel {
                        width: u16_at(s, p + 16),
                        height: u16_at(s, p + 18),
                        pixels,
                    },
                    q,
                ),
            ),
        }
    } else if !avail(s, p + 20, size - 20) {
        Err(Error::UnexpectedEof)
    } else {
        Ok(
            (
                CelView::CompressedImage {
                    width: u16_at(s, p + 16),
                    height: u16_at(s, p + 18),
                    zlib_compressed_data: s.subrange(p + 20, p + size),
                },
                p + size,
            ),
        )
    }
}

/// The cel chunk whose payload of `size` bytes starts at position `p`, in a
/// document of the given depth: 16 bytes of fixed fields, of which the last
/// seven are reserved, then what the cel type asks for.
pub open spec fn spec_read_cel(s: Seq<u8>, p: int, size: u32, depth: ColorDepth) -> Result<
    (CelChunkView, int),
    Error,
> {
    if !avail(s, p, 16) {
        Err(Error::UnexpectedEof)
    } else {
        match (if u16_at(s, p + 7) == 0 {
            spec_read_image(s, p, size as int, depth, true)
        } else if u16_at(s, p + 7) == 1 {
            if !avail(s, p + 16, 2) {
                Err(Error::UnexpectedEof)
            } else {
                Ok((CelView::LinkedCel { frame_position: u16_at(s, p + 16) }, p + 18))
            }
        } else if u16_at(s, p + 7) == 2 {
            spec_read_image(s, p, size as int, depth, false)
        } else {
            Err(Error::InvalidDiscriminant(Discriminant::CelType, u16_at(s, p + 7)))
        }) {
            Err(e) => Err(e),
            Ok((cel, q)) => Ok(
                (
                    CelChunkView {
                        layer_index: u16_at(s, p),
                        x_position: i16_at(s, p + 2),
                        y_position: i16_at(s, p + 4),
                        opacity_level: s[p + 6],
                        cel,
                    },
                    q,
                ),
            ),
        }
    }
}

impl CelView {
    /// The value that stands for the kind of cel on the wire.
    pub open spec fn type_code(self) -> u16 {
        match self {
            CelView::RawCel { .. } => 0,
            CelView::LinkedCel { .. } => 1,
            CelView::CompressedImage { .. } => 2,
        }
    }

    /// Whether a raw cel holds its pixels in the layout of the given depth.
    /// Any other cel fits every depth.
    pub open spec fn fits(self, depth: ColorDepth) -> bool {
        match self {
            CelView::RawCel { pixels, .. } => match depth {
                ColorDepth::Indexed => pixels is Indexed,
                ColorDepth::Grayscale => pixels is Grayscale,
                ColorDepth::RGBA => pixels is RGBA,
            },
            _ => true,
        }
    }

    /// The part of the payload that depends on the kind of cel.
    pub open spec fn bytes(self) -> Seq<u8> {
        match self {
            CelView::RawCel { width, height, pixels } => u16_bytes(width) + u16_bytes(height)
                + pixels_bytes(pixels),
            CelView::LinkedCel { frame_position } => u16_bytes(frame_position),
            CelView::CompressedImage { width, height, zlib_compressed_data } => u16_bytes(width)
                + u16_bytes(height) + zlib_compressed_data,
        }
    }
}

impl CelChunkView {
    /// The chunk on the wire. The reserved region is zero.
    pub open spec fn bytes(self) -> Seq<u8> {
        u16_bytes(self.layer_index) + i16_bytes(self.x_position) + i16_bytes(self.y_position)
            + seq![self.opacity_level] + u16_bytes(self.cel.type_code()) + zeros(7)
            + self.cel.bytes()
    }
}

impl Cel {
    /// The width of a cel that holds an image, nothing for a linked cel.
    pub fn w(&self) -> (r: Option<u16>)
        ensures
            r == (match self@ {
                CelView::CompressedImage { width, .. } => Some(width),
                CelView::RawCel { width, .. } => Some(width),
                CelView::LinkedCel { .. } => None,
            }),
    {
        match self {
            Cel::CompressedImage { width, .. } => Some(*width),
            Cel::RawCel { width, .. } => Some(*width),
            _ => None,
        }
    }

    /// The height of a cel that holds an image, nothing for a linked cel.
    pub fn h(&self) -> (r: Option<u16>)
        ensures
            r == (match self@ {
                CelView::CompressedImage { height, .. } => Some(height),
                CelView::RawCel { height, .. } => Some(height),
                CelView::LinkedCel { .. } => None,
            }),
    {
        match self {
            Cel::CompressedImage { height, .. } => Some(*height),
            Cel::RawCel { height, .. } => Some(*height),
            _ => None,
        }
    }

    /// Decodes all of `raw`, the inflated bytes of a compressed image, as
    /// pixels of the given depth. Nothing comes back where the length of
    /// `raw` is no multiple of the pixel size.
    pub fn decode_pixels(raw: Vec<u8>, color_depth: &ColorDepth) -> (r: Option<Pixels>)
        ensures
            pixels_view(r) == spec_decode_pixels(raw@, *color_depth),
    {
        let len: usize = raw.len();
        let mut rdr: Reader = Reader::new(raw);
        match CelChunk::read_pixels(&mut rdr, color_depth, len) {
            Ok(pixels) => Some(pixels),
            Err(_) => None,
        }
    }

    /// The pixels of the cel in a document of the given depth. A raw cel
    /// hands out a copy of its pixels. A compressed image is inflated and
    /// decoded now, and gives nothing where its data is no zlib stream or
    /// inflates to a length that is no multiple of the pixel size. A linked
    /// cel holds no pixels and gives nothing.
    pub fn pixels(&self, color_depth: &ColorDepth) -> (r: Option<Pixels>)
        ensures
            pixels_view(r) == spec_cel_pixels(self@, *color_depth),
    {
        match self {
            Cel::CompressedImage { zlib_compressed_data, .. } => {
                match inflate(zlib_compressed_data.as_slice()) {
                    Some(raw) => Cel::decode_pixels(raw, color_depth),
                    None => None,
                }
            },
            Cel::RawCel { pixels, .. } => Some(pixels.clone()),
            Cel::LinkedCel { .. } => None,
        }
    }
}

impl CelChunk {
    /// A chunk with a raw cel of `w` by `h` pixels at `(x, y)`, fully opaque.
    pub fn new(layer_index: u16, x: i16, y: i16, w: u16, h: u16, pixels: Pixels) -> (r: CelChunk)
        ensures
            r@ == (CelChunkView {
                layer_index,
                x_position: x,
                y_position: y,
                opacity_level: 255,
                cel: CelView::RawCel { width: w, height: h, pixels: pixels@ },
            }),
    {
        let cel: Cel = Cel::RawCel { width: w, height: h, pixels };
        CelChunk { layer_index, x_position: x, y_position: y, opacity_level: 255, cel }
    }

    /// Decodes `pixels_size` bytes as pixels of the given depth. A failure
    /// leaves the reader where it stood.
    pub fn read_pixels(read: &mut Reader, color_depth: &ColorDepth, pixels_size: usize) -> (r: Result<
        Pixels,
        Error,
    >)
        ensures
            reads(
                *old(read),
                *final(read),
                r,
                spec_read_pixels(
                    old(read).data(),
                    old(read).pos() as int,
                    pixels_size as int,
                    *color_depth,
                ),
            ),
            r is Err ==> final(read).pos() == old(read).pos(),
    {
        match color_depth {
            ColorDepth::Indexed => Pixels::indexed_from_read(read, pixels_size),
            ColorDepth::Grayscale => Pixels::grayscale_from_read(read, pixels_size),
            ColorDepth::RGBA => Pixels::rgba_from_read(read, pixels_size),
        }
    }

    /// Decodes a cel chunk whose payload takes `chunk_data_size` bytes. The
    /// pixels of a raw cel and the data of a compressed image take what the
    /// fields before them leave of the payload; the header gives the depth
    /// of raw pixels.
    pub fn from_read(read: &mut Reader, chunk_data_size: u32, header: &Header) -> (r: Result<
        CelChunk,
        Error,
    >)
        ensures
            reads(
                *old(read),
                *final(read),
                r,
                spec_read_cel(
                    old(read).data(),
                    old(read).pos() as int,
                    chunk_data_size,
                    header.color_depth,
                ),
            ),
    {
        read.need(16)?;
        let layer_index: u16 = read.read_u16()?;
        let x_position: i16 = read.read_i16()?;
        let y_position: i16 = read.read_i16()?;
        let opacity_level: u8 = read.read_u8()?;
        let cel_type: u16 = read.read_u16()?;
        read.skip(7)?;
        let cel: Cel = if cel_type == 0 {
            read.need(4)?;
            let width: u16 = read.read_u16()?;
            let height: u16 = read.read_u16()?;
            if chunk_data_size < 20 {
                return Err(Error::InvalidChunkSize);
            }
            let pixels_size: usize = (chunk_data_size - 20) as usize;
            let pixels: Pixels = CelChunk::read_pixels(read, &header.color_depth, pixels_size)?;
            Cel::RawCel { width, height, pixels }
        } else if cel_type == 1 {
            Cel::LinkedCel { frame_position: read.read_u16()? }
        } else if cel_type == 2 {
            read.need(4)?;
            let width: u16 = read.read_u16()?;
            let height: u16 = read.read_u16()?;
            if chunk_data_size < 20 {
                return Err(Error::InvalidChunkSize);
            }
            let data_size: usize = (chunk_data_size - 20) as usize;
            let zlib_compressed_data: Vec<u8> = read_bytes(read, data_size)?;
            Cel::CompressedImage { width, height, zlib_compressed_data }
        } else {
            return Err(Error::InvalidDiscriminant(Discriminant::CelType, cel_type));
        };
        Ok(CelChunk { layer_index, x_position, y_position, opacity_level, cel })
    }

    /// Encodes the chunk. Compressed data is written as it is held.
    pub fn write(&self, wtr: &mut Vec<u8>) -> (r: Result<(), Error>)
        ensures
            r is Ok,
            final(wtr)@ == old(wtr)@ + self@.bytes(),
    {
        write_u16(wtr, self.layer_index);
        write_i16(wtr, self.x_position);
        write_i16(wtr, self.y_position);
        write_u8(wtr, self.opacity_level);
        let cel_type: u16 = match self.cel {
            Cel::RawCel { .. } => 0,
            Cel::LinkedCel { .. } => 1,
            Cel::CompressedImage { .. } => 2,
        };
        write_u16(wtr, cel_type);
        write_zeros(wtr, 7);
        let ghost start = wtr@;
        match &self.cel {
            Cel::RawCel { width, height, pixels } => {
                write_u16(wtr, *width);
                write_u16(wtr, *height);
                let _ = pixels.write(wtr);
            },
            Cel::LinkedCel { frame_position } => {
                write_u16(wtr, *frame_position);
            },
            Cel::CompressedImage { width, height, zlib_compressed_data } => {
                write_u16(wtr, *width);
                write_u16(wtr, *height);
                write_bytes(wtr, zlib_compressed_data.as_slice());
            },
        }
        assert(wtr@ =~= start + self@.cel.bytes());
        Ok(())
    }
}

/// A cel chunk that was written reads back as it was, given the length of
/// what was written and the depth that its raw pixels are held in.
pub proof fn lemma_cel_roundtrip(v: CelChunkView, depth: ColorDepth, s: Seq<u8>, p: int)
    requires
        v.cel.fits(depth),
        v.bytes().len() <= u32::MAX,
        placed(s, p, v.bytes()),
    ensures
        spec_read_cel(s, p, v.bytes().len() as u32, depth) == Ok::<(CelChunkView, int), Error>(
            (v, p + v.bytes().len()),
        ),
{
    broadcast use group_placed;

    assert(placed(s, p, u16_bytes(v.layer_index)));
    assert(placed(s, p + 2, i16_bytes(v.x_position)));
    assert(placed(s, p + 4, i16_bytes(v.y_position)));
    assert(placed(s, p + 6, seq![v.opacity_level]));
    assert(placed(s, p + 7, u16_bytes(v.cel.type_code())));
    assert(placed(s, p + 16, v.cel.bytes()));
    match v.cel {
        CelView::RawCel { width, height, pixels } => {
            assert(placed(s, p + 16, u16_bytes(width)));
            assert(placed(s, p + 18, u16_bytes(height)));
            assert(placed(s, p + 20, pixels_bytes(pixels)));
            match pixels {
                PixelsView::RGBA(px) => {
                    lemma_rgba_roundtrip(px, s, p + 20);
                },
                PixelsView::Grayscale(px) => {
                    lemma_grayscale_roundtrip(px, s, p + 20);
                },
                PixelsView::Indexed(px) => {
                    lemma_indexed_roundtrip(px, s, p + 20);
                },
            }
        },
        CelView::LinkedCel { frame_position } => {
            assert(placed(s, p + 16, u16_bytes(frame_position)));
        },
        CelView::CompressedImage { width, height, zlib_compressed_data } => {
            assert(placed(s, p + 16, u16_bytes(width)));
            assert(placed(s, p + 18, u16_bytes(height)));
            assert(placed(s, p + 20, zlib_compressed_data));
        },
    }
}

/// What holds of a cel chunk that was decoded: a raw cel holds its pixels
/// in the layout of the depth that it was decoded in, and the decoder
/// stopped within the input.
pub proof fn lemma_decoded_cel(s: Seq<u8>, p: int, size: u32, depth: ColorDepth)
    requires
        spec_read_cel(s, p, size, depth) is Ok,
    ensures
        spec_read_cel(s, p, size, depth)->Ok_0.0.cel.fits(depth),
        p <= spec_read_cel(s, p, size, depth)->Ok_0.1 <= s.len(),
{
}

/// A cel chunk that decodes from `s` decodes to the same from every input
/// that begins with `s`.
pub proof fn lemma_cel_extends(s: Seq<u8>, t: Seq<u8>, p: int, size: u32, depth: ColorDepth)
    requires
        begins(s, t),
        spec_read_cel(s, p, size, depth) is Ok,
    ensures
        spec_read_cel(t, p, size, depth) == spec_read_cel(s, p, size, depth),
{
    let kind = u16_at(s, p + 7);
    if kind == 0 {
        match depth {
            ColorDepth::Indexed => {
                lemma_indexed_extends(s, t, p + 20, size - 20);
            },
            ColorDepth::Grayscale => {
                lemma_grayscale_extends(s, t, p + 20, size - 20);
            },
            ColorDepth::RGBA => {
                lemma_rgba_extends(s, t, p + 20, size - 20);
            },
        }
    } else if kind == 2 {
        assert(s.subrange(p + 20, p + size) =~= t.subrange(p + 20, p + size));
    }
}

} // verus!
