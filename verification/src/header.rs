//! The 128-byte document header.
use crate::error::{Discriminant, Error};
use crate::reader::{avail, reads, Reader};
use crate::wire::{begins, group_placed, placed, u16_at, u16_bytes, u32_at, u32_bytes, zeros};
use crate::writer::{write_u16, write_u32, write_u8, write_zeros};
use vstd::prelude::*;

verus! {

/// How a pixel is stored: the number of bits it takes.
#[derive(Debug, Clone, Copy, PartialEq, Eq, Structural)]
pub enum ColorDepth {
    Indexed,
    Grayscale,
    RGBA,
}

impl ColorDepth {
    /// The value that stands for the depth on the wire: 8, 16 or 32.
    pub open spec fn spec_code(self) -> u16 {
        match self {
            ColorDepth::Indexed => 8,
            ColorDepth::Grayscale => 16,
            ColorDepth::RGBA => 32,
        }
    }

    /// The depth that a wire value stands for, if any.
    pub open spec fn spec_from_code(code: u16) -> Option<ColorDepth> {
        if code == 8 {
            Some(ColorDepth::Indexed)
        } else if code == 16 {
            Some(ColorDepth::Grayscale)
        } else if code == 32 {
            Some(ColorDepth::RGBA)
        } else {
            None
        }
    }

    /// The value that stands for the variant on the wire.
    #[verifier::when_used_as_spec(spec_code)]
    pub fn code(self) -> (c: u16)
        ensures
            c == self.spec_code(),
    {
        match self {
            ColorDepth::Indexed => 8,
            ColorDepth::Grayscale => 16,
            ColorDepth::RGBA => 32,
        }
    }

    /// Maps a wire value to its depth and refuses every other value.
    pub fn from_code(code: u16) -> (r: Result<ColorDepth, Error>)
        ensures
            match ColorDepth::spec_from_code(code) {
                Some(d) => r == Ok::<ColorDepth, Error>(d),
                None => r == Err::<ColorDepth, Error>(
                    Error::InvalidDiscriminant(Discriminant::ColorDepth, code),
                ),
            },
    {
        if code == 8 {
            Ok(ColorDepth::Indexed)
        } else if code == 16 {
            Ok(ColorDepth::Grayscale)
        } else if code == 32 {
            Ok(ColorDepth::RGBA)
        } else {
            Err(Error::InvalidDiscriminant(Discriminant::ColorDepth, code))
        }
    }

    /// Every depth comes back from its wire value.
    pub proof fn lemma_code_roundtrip(self)
        ensures
            ColorDepth::spec_from_code(self.spec_code()) == Some(self),
    {
    }
}

impl Default for ColorDepth {
    fn default() -> (r: Self)
        ensures
            r == ColorDepth::RGBA,
    {
        ColorDepth::RGBA
    }
}

/// The document's flag bits.
#[derive(Debug, Clone, Copy, PartialEq, Eq, Structural)]
pub struct Flags {
    pub bits: u32,
}

impl Flags {
    /// Layer opacity is meaningful.
    pub const HAS_OPACITY: u32 = 1;

    /// Every bit that has a meaning.
    pub const ALL: u32 = 1;

    /// Whether no bit without a meaning is set.
    pub open spec fn known(self) -> bool {
        self.bits & Flags::ALL == self.bits
    }

    /// Whether every bit of `mask` is set.
    pub open spec fn spec_contains(self, mask: u32) -> bool {
        self.bits & mask == mask
    }

    /// Keeps the bits that have a meaning and drops the others.
    pub fn from_bits_truncate(bits: u32) -> (f: Flags)
        ensures
            f.bits == bits & Flags::ALL,
    {
        Flags { bits: bits & Flags::ALL }
    }

    /// Whether every bit of `mask` is set.
    #[verifier::when_used_as_spec(spec_contains)]
    pub fn contains(self, mask: u32) -> (b: bool)
        ensures
            b == self.spec_contains(mask),
    {
        self.bits & mask == mask
    }
}

impl Default for Flags {
    fn default() -> (r: Self)
        ensures
            r.bits == Flags::HAS_OPACITY,
    {
        Flags { bits: Flags::HAS_OPACITY }
    }
}

/// The fields of the document header. `file_size` and `frames` are what a
/// decoded header declared; on encode both are computed anew.
#[derive(Debug, Clone, Copy, PartialEq, Eq, Structural)]
pub struct Header {
    pub file_size: u32,
    pub frames: u16,
    pub width_in_pixels: u16,
    pub height_in_pixels: u16,
    pub color_depth: ColorDepth,
    pub flags: Flags,
    /// Deprecated: the frame duration lives in each frame.
    pub speed: u16,
    pub transparent_palette_entry: u8,
    pub number_of_colors: u16,
    pub pixel_width: u8,
    pub pixel_height: u8,
}

impl View for Header {
    type V = Header;

    open spec fn view(&self) -> Header {
        *self
    }
}

/// The header is 128 bytes long, whatever it holds.
pub const HEADER_SIZE: usize = 128;

/// The number that marks a document.
pub const HEADER_MAGIC: u16 = 0xA5E0;

/// The header that starts at position `p`.
pub open spec fn spec_read_header(s: Seq<u8>, p: int) -> Result<(Header, int), Error> {
    if !avail(s, p, 128) {
        Err(Error::UnexpectedEof)
    } else {
        match ColorDepth::spec_from_code(u16_at(s, p + 12)) {
            None => Err(Error::InvalidDiscriminant(Discriminant::ColorDepth, u16_at(s, p + 12))),
            Some(color_depth) => Ok(
                (
                    Header {
                        file_size: u32_at(s, p),
                        frames: u16_at(s, p + 6),
                        width_in_pixels: u16_at(s, p + 8),
                        height_in_pixels: u16_at(s, p + 10),
                        color_depth,
                        flags: Flags { bits: u32_at(s, p + 14) & Flags::ALL },
                        speed: u16_at(s, p + 18),
                        transparent_palette_entry: s[p + 28],
                        number_of_colors: u16_at(s, p + 32),
                        pixel_width: s[p + 34],
                        pixel_height: s[p + 35],
                    },
                    p + 128,
                ),
            ),
        }
    }
}

/// The 128 bytes of a header that declares `file_size` bytes and `frames`
/// frames. Reserved regions are zero.
pub open spec fn header_bytes(h: Header, file_size: u32, frames: u16) -> Seq<u8> {
    u32_bytes(file_size) + u16_bytes(HEADER_MAGIC) + u16_bytes(frames) + u16_bytes(
        h.width_in_pixels,
    ) + u16_bytes(h.height_in_pixels) + u16_bytes(h.color_depth.spec_code()) + u32_bytes(
        h.flags.bits,
    ) + u16_bytes(h.speed) + zeros(8) + seq![h.transparent_palette_entry] + zeros(3) + u16_bytes(
        h.number_of_colors,
    ) + seq![h.pixel_width] + seq![h.pixel_height] + zeros(92)
}

impl Default for Header {
    fn default() -> (r: Self)
        ensures
            r == (Header {
                file_size: 0,
                frames: 0,
                width_in_pixels: 0,
                height_in_pixels: 0,
                color_depth: ColorDepth::RGBA,
                flags: Flags { bits: Flags::HAS_OPACITY },
                speed: 100,
                transparent_palette_entry: 0,
                number_of_colors: 32,
                pixel_width: 1,
                pixel_height: 1,
            }),
    {
        Header {
            file_size: 0,
            frames: 0,
            width_in_pixels: 0,
            height_in_pixels: 0,
            color_depth: ColorDepth::RGBA,
            flags: Flags { bits: Flags::HAS_OPACITY },
            speed: 100,
            transparent_palette_entry: 0,
            number_of_colors: 32,
            pixel_width: 1,
            pixel_height: 1,
        }
    }
}

impl Header {
    /// The header of an empty RGBA document of `w` by `h` pixels.
    pub fn new(w: u16, h: u16) -> (r: Header)
        ensures
            r == (Header {
                file_size: 0,
                frames: 0,
                width_in_pixels: w,
                height_in_pixels: h,
                color_depth: ColorDepth::RGBA,
                flags: Flags { bits: Flags::HAS_OPACITY },
                speed: 100,
                transparent_palette_entry: 0,
                number_of_colors: 32,
                pixel_width: 1,
                pixel_height: 1,
            }),
    {
        Header {
            file_size: 0,
            frames: 0,
            width_in_pixels: w,
            height_in_pixels: h,
            color_depth: ColorDepth::RGBA,
            flags: Flags { bits: Flags::HAS_OPACITY },
            speed: 100,
            transparent_palette_entry: 0,
            number_of_colors: 32,
            pixel_width: 1,
            pixel_height: 1,
        }
    }

    /// Decodes the header. All of its 128 bytes have to be there; the magic
    /// number and the reserved regions are passed over unread.
    pub fn from_read(read: &mut Reader) -> (r: Result<Header, Error>)
        ensures
            reads(
                *old(read),
                *final(read),
                r,
                spec_read_header(old(read).data(), old(read).pos() as int),
            ),
    {
        read.need(HEADER_SIZE)?;
        let file_size: u32 = read.read_u32()?;
        read.skip(2)?;
        let frames: u16 = read.read_u16()?;
        let width_in_pixels: u16 = read.read_u16()?;
        let height_in_pixels: u16 = read.read_u16()?;
        let color_depth: ColorDepth = ColorDepth::from_code(read.read_u16()?)?;
        let flags: Flags = Flags::from_bits_truncate(read.read_u32()?);
        let speed: u16 = read.read_u16()?;
        read.skip(4 + 4)?;
        let transparent_palette_entry: u8 = read.read_u8()?;
        read.skip(3)?;
        let number_of_colors: u16 = read.read_u16()?;
        let pixel_width: u8 = read.read_u8()?;
        let pixel_height: u8 = read.read_u8()?;
        read.skip(92)?;
        Ok(
            Header {
                file_size,
                frames,
                width_in_pixels,
                height_in_pixels,
                color_depth,
                flags,
                speed,
                transparent_palette_entry,
                number_of_colors,
                pixel_width,
                pixel_height,
            },
        )
    }

    /// Encodes the header of a document whose frames take `frame_bytes` bytes
    /// and number `frame_len`. The file size is computed here; where it does
    /// not fit in 32 bits, nothing is written.
    pub fn write(&self, wtr: &mut Vec<u8>, frame_bytes: u32, frame_len: u16) -> (r: Result<
        (),
        Error,
    >)
        ensures
            128 + frame_bytes <= u32::MAX ==> r is Ok && final(wtr)@ == old(wtr)@ + header_bytes(
                *self,
                (128 + frame_bytes) as u32,
                frame_len,
            ),
            128 + frame_bytes > u32::MAX ==> r == Err::<(), Error>(Error::TooLarge) && final(wtr)@
                == old(wtr)@,
    {
        if frame_bytes > u32::MAX - 128 {
            return Err(Error::TooLarge);
        }
        write_u32(wtr, 128 + frame_bytes);
        write_u16(wtr, HEADER_MAGIC);
        write_u16(wtr, frame_len);
        write_u16(wtr, self.width_in_pixels);
        write_u16(wtr, self.height_in_pixels);
        write_u16(wtr, self.color_depth.code());
        write_u32(wtr, self.flags.bits);
        write_u16(wtr, self.speed);
        write_zeros(wtr, 4 + 4);
        write_u8(wtr, self.transparent_palette_entry);
        write_zeros(wtr, 3);
        write_u16(wtr, self.number_of_colors);
        write_u8(wtr, self.pixel_width);
        write_u8(wtr, self.pixel_height);
        write_zeros(wtr, 92);
        Ok(())
    }
}

} // verus!

verus! {

/// A header that was written reads back with the size and the frame count
/// that it was written with, and with every other field as it was, provided
/// its flags hold no bit without a meaning.
pub proof fn lemma_header_roundtrip(h: Header, file_size: u32, frames: u16, s: Seq<u8>, p: int)
    requires
        h.flags.known(),
        placed(s, p, header_bytes(h, file_size, frames)),
    ensures
        spec_read_header(s, p) == Ok::<(Header, int), Error>(
            (Header { file_size, frames, ..h }, p + 128),
        ),
{
    broadcast use group_placed;

    h.color_depth.lemma_code_roundtrip();
    assert(header_bytes(h, file_size, frames).len() == 128);
}

/// What holds of a header that was decoded: its flags hold no bit without
/// a meaning.
pub proof fn lemma_decoded_header(s: Seq<u8>, p: int)
    requires
        spec_read_header(s, p) is Ok,
    ensures
        spec_read_header(s, p)->Ok_0.0.flags.known(),
        spec_read_header(s, p)->Ok_0.1 == p + 128,
        0 <= p && p + 128 <= s.len(),
{
    let raw = u32_at(s, p + 14);
    assert((raw & 1) & 1 == raw & 1) by (bit_vector);
}

/// A header that decodes from `s` decodes to the same from every input
/// that begins with `s`.
pub proof fn lemma_header_extends(s: Seq<u8>, t: Seq<u8>, p: int)
    requires
        begins(s, t),
        spec_read_header(s, p) is Ok,
    ensures
        spec_read_header(t, p) == spec_read_header(s, p),
{
}

} // verus!
