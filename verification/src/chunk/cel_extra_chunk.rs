//! The cel extra chunk: the precise bounds of the cel before it.
use crate::error::Error;
use crate::reader::{avail, reads, Reader};
use crate::wire::{begins, group_placed, placed, u32_at, u32_bytes, zeros};
use crate::writer::{write_u32, write_zeros};
use vstd::prelude::*;

verus! {

/// The flag bits of a cel extra chunk.
#[derive(Debug, Clone, Copy, PartialEq, Eq, Structural)]
pub struct Flags {
    pub bits: u32,
}

impl Flags {
    /// The precise bounds are set.
    pub const PRECISE_BOUNDS: u32 = 1;

    /// Every bit that has a meaning.
    pub const ALL: u32 = 1;

    /// Whether no bit without a meaning is set.
    pub open spec fn known(self) -> bool {
        self.bits & Flags::ALL == self.bits
    }

    /// Whether every bit of `mask` is set.
    pub open spec fn spec_contains(self, mask: u32) -> bool {
        self.bits & mask == mask
    }

    /// Keeps the bits that have a meaning and drops the others.
    pub fn from_bits_truncate(bits: u32) -> (f: Flags)
        ensures
            f.bits == bits & Flags::ALL,
    {
        Flags { bits: bits & Flags::ALL }
    }

    /// Whether every bit of `mask` is set.
    #[verifier::when_used_as_spec(spec_contains)]
    pub fn contains(self, mask: u32) -> (b: bool)
        ensures
            b == self.spec_contains(mask),
    {
        self.bits & mask == mask
    }
}

/// The bounds are 32-bit real numbers on the wire. Each field holds the 32
/// bits as they stand there, so that no bit is lost on the way back.
#[derive(Debug, Clone, Copy, PartialEq, Eq, Structural)]
pub struct CelExtraChunk {
    pub flags: Flags,
    pub precise_x_position: u32,
    pub precise_y_position: u32,
    pub width: u32,
    pub height: u32,
}

impl View for CelExtraChunk {
    type V = CelExtraChunk;

    open spec fn view(&self) -> CelExtraChunk {
        *self
    }
}

/// The cel extra chunk that starts at position `p`: 36 bytes, of which the
/// last 16 are reserved.
pub open spec fn spec_read_cel_extra(s: Seq<u8>, p: int) -> Result<(CelExtraChunk, int), Error> {
    if !avail(s, p, 36) {
        Err(Error::UnexpectedEof)
    } else {
        Ok(
            (
                CelExtraChunk {
                    flags: Flags { bits: u32_at(s, p) & Flags::ALL },
                    precise_x_position: u32_at(s, p + 4),
                    precise_y_position: u32_at(s, p + 8),
                    width: u32_at(s, p + 12),
                    height: u32_at(s, p + 16),
                },
                p + 36,
            ),
        )
    }
}

impl CelExtraChunk {
    /// No flag bit without a meaning is set.
    pub open spec fn wf(self) -> bool {
        self.flags.known()
    }

    /// The chunk on the wire. The reserved region is zero.
    pub open spec fn bytes(self) -> Seq<u8> {
        u32_bytes(self.flags.bits) + u32_bytes(self.precise_x_position) + u32_bytes(
            self.precise_y_position,
        ) + u32_bytes(self.width) + u32_bytes(self.height) + zeros(16)
    }

    /// Decodes a cel extra chunk from where the reader stands.
    pub fn from_read(read: &mut Reader) -> (r: Result<CelExtraChunk, Error>)
        ensures
            reads(
                *old(read),
                *final(read),
                r,
                spec_read_cel_extra(old(read).data(), old(read).pos() as int),
            ),
    {
        read.need(36)?;
        let flags: Flags = Flags::from_bits_truncate(read.read_u32()?);
        let precise_x_position: u32 = read.read_u32()?;
        let precise_y_position: u32 = read.read_u32()?;
        let width: u32 = read.read_u32()?;
        let height: u32 = read.read_u32()?;
        read.skip(16)?;
        Ok(CelExtraChunk { flags, precise_x_position, precise_y_position, width, height })
    }

    /// Encodes the cel extra chunk.
    pub fn write(&self, wtr: &mut Vec<u8>) -> (r: Result<(), Error>)
        ensures
            r is Ok,
            final(wtr)@ == old(wtr)@ + self.bytes(),
    {
        write_u32(wtr, self.flags.bits);
        write_u32(wtr, self.precise_x_position);
        write_u32(wtr, self.precise_y_position);
        write_u32(wtr, self.width);
        write_u32(wtr, self.height);
        write_zeros(wtr, 16);
        Ok(())
    }
}

/// A cel extra chunk that was written reads back as it was.
pub proof fn lemma_cel_extra_roundtrip(v: CelExtraChunk, s: Seq<u8>, p: int)
    requires
        v.wf(),
        placed(s, p, v.bytes()),
    ensures
        spec_read_cel_extra(s, p) == Ok::<(CelExtraChunk, int), Error>((v, p + v.bytes().len())),
{
    broadcast use group_placed;

    assert(placed(s, p, u32_bytes(v.flags.bits)));
    assert(placed(s, p + 4, u32_bytes(v.precise_x_position)));
    assert(placed(s, p + 8, u32_bytes(v.precise_y_position)));
    assert(placed(s, p + 12, u32_bytes(v.width)));
    assert(placed(s, p + 16, u32_bytes(v.height)));
}

/// What holds of a cel extra chunk that was decoded: it is well formed.
pub proof fn lemma_decoded_cel_extra(s: Seq<u8>, p: int)
    requires
        spec_read_cel_extra(s, p) is Ok,
    ensures
        spec_read_cel_extra(s, p)->Ok_0.0.wf(),
        p <= spec_read_cel_extra(s, p)->Ok_0.1 <= s.len(),
{
    let raw = u32_at(s, p);
    assert((raw & 1) & 1 == raw & 1) by (bit_vector);
}

/// A cel extra chunk that decodes from `s` decodes to the same from every
/// input that begins with `s`.
pub proof fn lemma_cel_extra_extends(s: Seq<u8>, t: Seq<u8>, p: int)
    requires
        begins(s, t),
        spec_read_cel_extra(s, p) is Ok,
    ensures
        spec_read_cel_extra(t, p) == spec_read_cel_extra(s, p),
{
}

} // verus!
