//! The mask chunk: a named one-bit-deep bitmap.
use crate::error::Error;
use crate::helpers::{
    check_string, lemma_decoded_string, lemma_string_extends, lemma_string_roundtrip, read_bytes,
    read_string, spec_read_string, string_bytes, string_problem, write_string,
};
use crate::reader::{avail, reads, Reader};
use crate::wire::{begins, group_placed, i16_at, i16_bytes, placed, u16_at, u16_bytes, zeros};
use crate::writer::{write_bytes, write_i16, write_u16, write_zeros, writes};
use vstd::prelude::*;

verus! {

/// A mask: a rectangle and one bit for each of its pixels.
#[derive(Debug, Clone, PartialEq, Eq)]
pub struct MaskChunk {
    pub x_position: i16,
    pub y_position: i16,
    pub width: u16,
    pub height: u16,
    pub mask_name: String,
    pub bitmap_data: Vec<u8>,
}

/// The value of a [`MaskChunk`] as mathematics: sequences in place of vectors
/// and strings.
pub ghost struct MaskChunkView {
    pub x_position: i16,
    pub y_position: i16,
    pub width: u16,
    pub height: u16,
    pub mask_name: Seq<char>,
    pub bitmap_data: Seq<u8>,
}

impl View for MaskChunk {
    type V = MaskChunkView;

    open spec fn view(&self) -> MaskChunkView {
        MaskChunkView {
            x_position: self.x_position,
            y_position: self.y_position,
            width: self.width,
            height: self.height,
            mask_name: self.mask_name@,
            bitmap_data: self.bitmap_data@,
        }
    }
}

/// The number of bytes that the bitmap of a mask of this size takes on the
/// wire, computed without wrapping.
pub open spec fn bitmap_size(width: u16, height: u16) -> int {
    (height as int) * (width as int + 7) / 8
}

/// The mask chunk that starts at position `p`: 16 bytes of fixed fields, the
/// name, then the bitmap, whose length follows from width and height.
pub open spec fn spec_read_mask(s: Seq<u8>, p: int) -> Result<(MaskChunkView, int), Error> {
    if !avail(s, p, 16) {
        Err(Error::UnexpectedEof)
    } else {
        match spec_read_string(s, p + 16) {
            Err(e) => Err(e),
            Ok((mask_name, q)) => {
                let n = bitmap_size(u16_at(s, p + 4), u16_at(s, p + 6));
                if !avail(s, q, n) {
                    Err(Error::UnexpectedEof)
                } else {
                    Ok(
                        (
                            MaskChunkView {
                                x_position: i16_at(s, p),
                                y_position: i16_at(s, p + 2),
                                width: u16_at(s, p + 4),
                                height: u16_at(s, p + 6),
                                mask_name,
                                bitmap_data: s.subrange(q, q + n),
                            },
                            q + n,
                        ),
                    )
                }
            },
        }
    }
}

impl MaskChunkView {
    /// The bitmap has the length that width and height give it.
    pub open spec fn wf(self) -> bool {
        self.bitmap_data.len() == bitmap_size(self.width, self.height)
    }

    /// What stands in the way of encoding, if anything: a name too long for
    /// its length prefix.
    pub open spec fn problem(self) -> Option<Error> {
        string_problem(self.mask_name)
    }

    /// The chunk on the wire. The reserved region is zero; the bitmap is
    /// written as it is held.
    pub open spec fn bytes(self) -> Seq<u8> {
        i16_bytes(self.x_position) + i16_bytes(self.y_position) + u16_bytes(self.width)
            + u16_bytes(self.height) + zeros(8) + string_bytes(self.mask_name) + self.bitmap_data
    }
}

impl MaskChunk {
    /// Decodes a mask chunk from where the reader stands.
    pub fn from_read(read: &mut Reader) -> (r: Result<MaskChunk, Error>)
        ensures
            reads(
                *old(read),
                *final(read),
                r,
                spec_read_mask(old(read).data(), old(read).pos() as int),
            ),
    {
        read.need(16)?;
        let x_position: i16 = read.read_i16()?;
        let y_position: i16 = read.read_i16()?;
        let width: u16 = read.read_u16()?;
        let height: u16 = read.read_u16()?;
        read.skip(8)?;
        let mask_name: String = read_string(read)?;
        assert((height as int) * (width as int + 7) <= 65535 * 65542) by (nonlinear_arith)
            requires
                0 <= height <= 65535,
                0 <= width <= 65535,
        ;
        let size: u64 = (height as u64) * (width as u64 + 7) / 8;
        let bitmap_data: Vec<u8> = read_bytes(read, size as usize)?;
        Ok(MaskChunk { x_position, y_position, width, height, mask_name, bitmap_data })
    }

    /// Encodes the mask chunk, or writes nothing where it cannot be encoded.
    pub fn write(&self, wtr: &mut Vec<u8>) -> (r: Result<(), Error>)
        ensures
            writes(old(wtr)@, final(wtr)@, r, self@.problem(), self@.bytes()),
    {
        check_string(self.mask_name.as_str())?;
        write_i16(wtr, self.x_position);
        write_i16(wtr, self.y_position);
        write_u16(wtr, self.width);
        write_u16(wtr, self.height);
        write_zeros(wtr, 8);
        let _ = write_string(wtr, self.mask_name.as_str());
        write_bytes(wtr, self.bitmap_data.as_slice());
        Ok(())
    }
}

/// A mask chunk that was written reads back as it was.
pub proof fn lemma_mask_roundtrip(v: MaskChunkView, s: Seq<u8>, p: int)
    requires
        v.wf(),
        v.problem() is None,
        placed(s, p, v.bytes()),
    ensures
        spec_read_mask(s, p) == Ok::<(MaskChunkView, int), Error>((v, p + v.bytes().len())),
{
    broadcast use group_placed;

    lemma_string_roundtrip(v.mask_name, s, p + 16);
}

/// What holds of a mask chunk that was decoded: it is well formed and can
/// be encoded, and the decoder stopped within the input.
pub proof fn lemma_decoded_mask(s: Seq<u8>, p: int)
    requires
        spec_read_mask(s, p) is Ok,
    ensures
        spec_read_mask(s, p)->Ok_0.0.wf(),
        spec_read_mask(s, p)->Ok_0.0.problem() is None,
        p <= spec_read_mask(s, p)->Ok_0.1 <= s.len(),
{
    lemma_decoded_string(s, p + 16);
}

/// A mask chunk that decodes from `s` decodes to the same from every input
/// that begins with `s`.
pub proof fn lemma_mask_extends(s: Seq<u8>, t: Seq<u8>, p: int)
    requires
        begins(s, t),
        spec_read_mask(s, p) is Ok,
    ensures
        spec_read_mask(t, p) == spec_read_mask(s, p),
{
    lemma_string_extends(s, t, p + 16);
    let q = spec_read_string(s, p + 16)->Ok_0.1;
    let n = bitmap_size(u16_at(s, p + 4), u16_at(s, p + 6));
    assert(s.subrange(q, q + n) =~= t.subrange(q, q + n));
}

} // verus!
