//! The colour profile chunk.
use crate::error::{Discriminant, Error};
use crate::helpers::read_bytes;
use crate::reader::{avail, reads, Reader};
use crate::wire::{begins, group_placed, placed, u16_at, u16_bytes, u32_at, u32_bytes, zeros};
use crate::writer::{write_bytes, write_u16, write_u32, write_zeros, writes};
use vstd::prelude::*;

verus! {

/// The kind of colour profile.
#[derive(Debug, Clone, Copy, PartialEq, Eq, Structural)]
pub enum ProfileType {
    /// No colour profile.
    NoProfile,
    SRgb,
    EmbeddedIccProfile,
}

impl ProfileType {
    /// The value that stands for the variant on the wire.
    pub open spec fn spec_code(self) -> u16 {
        match self {
            ProfileType::NoProfile => 0,
            ProfileType::SRgb => 1,
            ProfileType::EmbeddedIccProfile => 2,
        }
    }

    /// The variant that a wire value stands for, if any.
    pub open spec fn spec_from_code(code: u16) -> Option<ProfileType> {
        if code == 0 {
            Some(ProfileType::NoProfile)
        } else if code == 1 {
            Some(ProfileType::SRgb)
        } else if code == 2 {
            Some(ProfileType::EmbeddedIccProfile)
        } else {
            None
        }
    }

    /// The value that stands for the variant on the wire.
    #[verifier::when_used_as_spec(spec_code)]
    pub fn code(self) -> (c: u16)
        ensures
            c == self.spec_code(),
    {
        match self {
            ProfileType::NoProfile => 0,
            ProfileType::SRgb => 1,
            ProfileType::EmbeddedIccProfile => 2,
        }
    }

    /// Maps a wire value to its profile type and refuses every other value.
    pub fn from_code(code: u16) -> (r: Result<ProfileType, Error>)
        ensures
            match ProfileType::spec_from_code(code) {
                Some(t) => r == Ok::<ProfileType, Error>(t),
                None => r == Err::<ProfileType, Error>(
                    Error::InvalidDiscriminant(Discriminant::ProfileType, code),
                ),
            },
    {
        if code == 0 {
            Ok(ProfileType::NoProfile)
        } else if code == 1 {
            Ok(ProfileType::SRgb)
        } else if code == 2 {
            Ok(ProfileType::EmbeddedIccProfile)
        } else {
            Err(Error::InvalidDiscriminant(Discriminant::ProfileType, code))
        }
    }

    /// Every profile type comes back from its wire value.
    pub proof fn lemma_code_roundtrip(self)
        ensures
            ProfileType::spec_from_code(self.spec_code()) == Some(self),
    {
    }
}

/// The flag bits of a colour profile.
#[derive(Debug, Clone, Copy, PartialEq, Eq, Structural)]
pub struct Flags {
    pub bits: u16,
}

impl Flags {
    /// The profile uses the fixed gamma.
    pub const SPECIAL_FIXED_GAMMA: u16 = 1;

    /// Every bit that has a meaning.
    pub const ALL: u16 = 1;

    /// Whether no bit without a meaning is set.
    pub open spec fn known(self) -> bool {
        self.bits & Flags::ALL == self.bits
    }

    /// Whether every bit of `mask` is set.
    pub open spec fn spec_contains(self, mask: u16) -> bool {
        self.bits & mask == mask
    }

    /// Keeps the bits that have a meaning and drops the others.
    pub fn from_bits_truncate(bits: u16) -> (f: Flags)
        ensures
            f.bits == bits & Flags::ALL,
    {
        Flags { bits: bits & Flags::ALL }
    }

    /// Whether every bit of `mask` is set.
    #[verifier::when_used_as_spec(spec_contains)]
    pub fn contains(self, mask: u16) -> (b: bool)
        ensures
            b == self.spec_contains(mask),
    {
        self.bits & mask == mask
    }
}

/// The gamma is a 32-bit real number on the wire; `fixed_gamma` holds the 32
/// bits as they stand there. `icc_profile` is empty unless the profile is an
/// embedded one.
#[derive(Debug, Clone, PartialEq, Eq)]
pub struct ColorProfileChunk {
    pub profile_type: ProfileType,
    pub flags: Flags,
    pub fixed_gamma: u32,
    pub icc_profile: Vec<u8>,
}

/// The value of a [`ColorProfileChunk`] as mathematics: sequences in place of vectors
/// and strings.
pub ghost struct ColorProfileChunkView {
    pub profile_type: ProfileType,
    pub flags: Flags,
    pub fixed_gamma: u32,
    pub icc_profile: Seq<u8>,
}

impl View for ColorProfileChunk {
    type V = ColorProfileChunkView;

    open spec fn view(&self) -> ColorProfileChunkView {
        ColorProfileChunkView {
            profile_type: self.profile_type,
            flags: self.flags,
            fixed_gamma: self.fixed_gamma,
            icc_profile: self.icc_profile@,
        }
    }
}

/// The ICC data of a profile whose fixed fields end at `q`: a 32-bit length
/// and that many bytes for an embedded profile, nothing for any other.
pub open spec fn spec_read_icc(s: Seq<u8>, q: int, profile_type: ProfileType) -> Result<
    (Seq<u8>, int),
    Error,
> {
    if profile_type != ProfileType::EmbeddedIccProfile {
        Ok((Seq::empty(), q))
    } else if !avail(s, q, 4) {
        Err(Error::UnexpectedEof)
    } else if !avail(s, q + 4, u32_at(s, q) as int) {
        Err(Error::UnexpectedEof)
    } else {
        Ok((s.subrange(q + 4, q + 4 + u32_at(s, q)), q + 4 + u32_at(s, q)))
    }
}

/// The colour profile chunk that starts at position `p`.
pub open spec fn spec_read_color_profile(s: Seq<u8>, p: int) -> Result<
    (ColorProfileChunkView, int),
    Error,
> {
    if !avail(s, p, 16) {
        Err(Error::UnexpectedEof)
    } else {
        match ProfileType::spec_from_code(u16_at(s, p)) {
            None => Err(Error::InvalidDiscriminant(Discriminant::ProfileType, u16_at(s, p))),
            Some(profile_type) => match spec_read_icc(s, p + 16, profile_type) {
                Err(e) => Err(e),
                Ok((icc_profile, q)) => Ok(
                    (
                        ColorProfileChunkView {
                            profile_type,
                            flags: Flags { bits: u16_at(s, p + 2) & Flags::ALL },
                            fixed_gamma: u32_at(s, p + 4),
                            icc_profile,
                        },
                        q,
                    ),
                ),
            },
        }
    }
}

impl ColorProfileChunkView {
    /// No flag bit without a meaning is set, and only an embedded profile
    /// holds ICC data.
    pub open spec fn wf(self) -> bool {
        &&& self.flags.known()
        &&& self.profile_type != ProfileType::EmbeddedIccProfile ==> self.icc_profile.len() == 0
    }

    /// What stands in the way of encoding, if anything: embedded ICC data
    /// too long for its length field.
    pub open spec fn problem(self) -> Option<Error> {
        if self.profile_type == ProfileType::EmbeddedIccProfile && self.icc_profile.len()
            > u32::MAX {
            Some(Error::TooLarge)
        } else {
            None
        }
    }

    /// The chunk on the wire. The ICC data, with its length before it, is
    /// written for an embedded profile only.
    pub open spec fn bytes(self) -> Seq<u8> {
        u16_bytes(self.profile_type.spec_code()) + u16_bytes(self.flags.bits) + u32_bytes(
            self.fixed_gamma,
        ) + zeros(8) + (if self.profile_type == ProfileType::EmbeddedIccProfile {
            u32_bytes(self.icc_profile.len() as u32) + self.icc_profile
        } else {
            Seq::empty()
        })
    }
}

impl ColorProfileChunk {
    /// Decodes a colour profile chunk from where the reader stands.
    pub fn from_read(read: &mut Reader) -> (r: Result<ColorProfileChunk, Error>)
        ensures
            reads(
                *old(read),
                *final(read),
                r,
                spec_read_color_profile(old(read).data(), old(read).pos() as int),
            ),
    {
        read.need(16)?;
        let profile_type: ProfileType = ProfileType::from_code(read.read_u16()?)?;
        let flags: Flags = Flags::from_bits_truncate(read.read_u16()?);
        let fixed_gamma: u32 = read.read_u32()?;
        read.skip(8)?;
        let icc_profile: Vec<u8> = match profile_type {
            ProfileType::EmbeddedIccProfile => {
                let icc_profile_length: u32 = read.read_u32()?;
                read_bytes(read, icc_profile_length as usize)?
            },
            _ => Vec::new(),
        };
        Ok(ColorProfileChunk { profile_type, flags, fixed_gamma, icc_profile })
    }

    /// Encodes the colour profile chunk, or writes nothing where it cannot be encoded.
    pub fn write(&self, wtr: &mut Vec<u8>) -> (r: Result<(), Error>)
        ensures
            writes(old(wtr)@, final(wtr)@, r, self@.problem(), self@.bytes()),
    {
        let embedded: bool = match self.profile_type {
            ProfileType::EmbeddedIccProfile => true,
            _ => false,
        };
        if embedded && self.icc_profile.len() > 0xFFFF_FFFF {
            return Err(Error::TooLarge);
        }
        write_u16(wtr, self.profile_type.code());
        write_u16(wtr, self.flags.bits);
        write_u32(wtr, self.fixed_gamma);
        write_zeros(wtr, 8);
        if embedded {
            write_u32(wtr, self.icc_profile.len() as u32);
            write_bytes(wtr, self.icc_profile.as_slice());
        }
        Ok(())
    }
}

/// A colour profile chunk that was written reads back as it was.
pub proof fn lemma_color_profile_roundtrip(v: ColorProfileChunkView, s: Seq<u8>, p: int)
    requires
        v.wf(),
        v.problem() is None,
        placed(s, p, v.bytes()),
    ensures
        spec_read_color_profile(s, p) == Ok::<(ColorProfileChunkView, int), Error>(
            (v, p + v.bytes().len()),
        ),
{
    broadcast use group_placed;

    v.profile_type.lemma_code_roundtrip();
    if v.profile_type == ProfileType::EmbeddedIccProfile {
        assert(placed(s, p + 20, v.icc_profile));
    } else {
        assert(v.icc_profile =~= Seq::<u8>::empty());
    }
}

/// What holds of a colour profile chunk that was decoded: it is well formed
/// and can be encoded, and the decoder stopped within the input.
pub proof fn lemma_decoded_color_profile(s: Seq<u8>, p: int)
    requires
        spec_read_color_profile(s, p) is Ok,
    ensures
        spec_read_color_profile(s, p)->Ok_0.0.wf(),
        spec_read_color_profile(s, p)->Ok_0.0.problem() is None,
        p <= spec_read_color_profile(s, p)->Ok_0.1 <= s.len(),
{
    let raw = u16_at(s, p + 2);
    assert((raw & 1) & 1 == raw & 1) by (bit_vector);
}

/// A colour profile chunk that decodes from `s` decodes to the same from
/// every input that begins with `s`.
pub proof fn lemma_color_profile_extends(s: Seq<u8>, t: Seq<u8>, p: int)
    requires
        begins(s, t),
        spec_read_color_profile(s, p) is Ok,
    ensures
        spec_read_color_profile(t, p) == spec_read_color_profile(s, p),
{
    let profile_type = ProfileType::spec_from_code(u16_at(s, p))->Some_0;
    if profile_type == ProfileType::EmbeddedIccProfile {
        let n = u32_at(s, p + 16) as int;
        assert(s.subrange(p + 20, p + 20 + n) =~= t.subrange(p + 20, p + 20 + n));
    }
}

} // verus!
