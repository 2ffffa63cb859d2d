//! The user data chunk: an optional text and an optional colour, each
//! announced by a flag bit.
use crate::color::{rgba_at, rgba_bytes, RGBA256};
use crate::error::{Error, Gated};
use crate::helpers::{
    check_string, lemma_decoded_string, lemma_string_extends, lemma_string_roundtrip, read_string,
    spec_read_string, string_bytes, string_problem, write_string,
};
use crate::reader::{avail, reads, Reader};
use crate::wire::{begins, group_placed, lemma_placed_index, placed, u32_at, u32_bytes};
use crate::writer::{write_u32, write_u8, writes};
use vstd::prelude::*;

verus! {

/// The flag bits of a user data chunk.
#[derive(Debug, Clone, Copy, PartialEq, Eq, Structural)]
pub struct Flags {
    pub bits: u32,
}

impl Flags {
    /// A text follows the flags.
    pub const HAS_TEXT: u32 = 1;

    /// A colour follows the text.
    pub const HAS_COLOR: u32 = 2;

    /// Every bit that has a meaning.
    pub const ALL: u32 = 3;

    /// Whether no bit without a meaning is set.
    pub open spec fn known(self) -> bool {
        self.bits & Flags::ALL == self.bits
    }

    /// Whether every bit of `mask` is set.
    pub open spec fn spec_contains(self, mask: u32) -> bool {
        self.bits & mask == mask
    }

    /// Keeps the bits that have a meaning and drops the others.
    pub fn from_bits_truncate(bits: u32) -> (f: Flags)
        ensures
            f.bits == bits & Flags::ALL,
    {
        Flags { bits: bits & Flags::ALL }
    }

    /// Whether every bit of `mask` is set.
    #[verifier::when_used_as_spec(spec_contains)]
    pub fn contains(self, mask: u32) -> (b: bool)
        ensures
            b == self.spec_contains(mask),
    {
        self.bits & mask == mask
    }
}

/// User data for the chunk before it.
#[derive(Debug, Clone, PartialEq, Eq)]
pub struct UserDataChunk {
    pub flags: Flags,
    pub text: Option<String>,
    pub color: Option<RGBA256>,
}

/// The value of a [`UserDataChunk`] as mathematics: sequences in place of vectors
/// and strings.
pub ghost struct UserDataChunkView {
    pub flags: Flags,
    pub text: Option<Seq<char>>,
    pub color: Option<RGBA256>,
}

impl View for UserDataChunk {
    type V = UserDataChunkView;

    open spec fn view(&self) -> UserDataChunkView {
        UserDataChunkView {
            flags: self.flags,
            text: match self.text {
                Some(t) => Some(t@),
                None => None,
            },
            color: self.color,
        }
    }
}

/// The colour of the chunk, which starts at `q` where the flags announce one.
pub open spec fn spec_read_user_color(s: Seq<u8>, q: int, flags: Flags) -> Result<
    (Option<RGBA256>, int),
    Error,
> {
    if !flags.spec_contains(Flags::HAS_COLOR) {
        Ok((None, q))
    } else if !avail(s, q, 4) {
        Err(Error::UnexpectedEof)
    } else {
        Ok((Some(rgba_at(s, q)), q + 4))
    }
}

/// The user data chunk that starts at position `p`.
pub open spec fn spec_read_user_data(s: Seq<u8>, p: int) -> Result<(UserDataChunkView, int), Error> {
    if !avail(s, p, 4) {
        Err(Error::UnexpectedEof)
    } else {
        let flags = Flags { bits: u32_at(s, p) & Flags::ALL };
        if flags.spec_contains(Flags::HAS_TEXT) {
            match spec_read_string(s, p + 4) {
                Err(e) => Err(e),
                Ok((text, q)) => match spec_read_user_color(s, q, flags) {
                    Err(e) => Err(e),
                    Ok((color, end)) => Ok(
                        (UserDataChunkView { flags, text: Some(text), color }, end),
                    ),
                },
            }
        } else {
            match spec_read_user_color(s, p + 4, flags) {
                Err(e) => Err(e),
                Ok((color, end)) => Ok((UserDataChunkView { flags, text: None, color }, end)),
            }
        }
    }
}

impl UserDataChunkView {
    /// The flags hold no bit without a meaning, and each optional field is
    /// there exactly if its flag is set.
    pub open spec fn wf(self) -> bool {
        &&& self.flags.known()
        &&& self.flags.spec_contains(Flags::HAS_TEXT) <==> self.text is Some
        &&& self.flags.spec_contains(Flags::HAS_COLOR) <==> self.color is Some
    }

    /// What stands in the way of encoding, if anything: a flag without its
    /// field, or a text too long for its length prefix. The text is looked at
    /// before the colour.
    pub open spec fn problem(self) -> Option<Error> {
        if self.flags.spec_contains(Flags::HAS_TEXT) && self.text is None {
            Some(Error::FlagDataMismatch(Gated::Text))
        } else if self.flags.spec_contains(Flags::HAS_TEXT) && string_problem(
            self.text->Some_0,
        ) is Some {
            string_problem(self.text->Some_0)
        } else if self.flags.spec_contains(Flags::HAS_COLOR) && self.color is None {
            Some(Error::FlagDataMismatch(Gated::Color))
        } else {
            None
        }
    }

    /// The chunk on the wire. A field whose flag is clear is not written.
    pub open spec fn bytes(self) -> Seq<u8> {
        u32_bytes(self.flags.bits) + (if self.flags.spec_contains(Flags::HAS_TEXT) {
            string_bytes(self.text->Some_0)
        } else {
            Seq::empty()
        }) + (if self.flags.spec_contains(Flags::HAS_COLOR) {
            rgba_bytes(self.color->Some_0)
        } else {
            Seq::empty()
        })
    }
}

impl UserDataChunk {
    /// Decodes a user data chunk from where the reader stands.
    pub fn from_read(read: &mut Reader) -> (r: Result<UserDataChunk, Error>)
        ensures
            reads(
                *old(read),
                *final(read),
                r,
                spec_read_user_data(old(read).data(), old(read).pos() as int),
            ),
    {
        let flags: Flags = Flags::from_bits_truncate(read.read_u32()?);
        let text: Option<String> = if flags.contains(Flags::HAS_TEXT) {
            Some(read_string(read)?)
        } else {
            None
        };
        let color: Option<RGBA256> = if flags.contains(Flags::HAS_COLOR) {
            read.need(4)?;
            let r: u8 = read.read_u8()?;
            let g: u8 = read.read_u8()?;
            let b: u8 = read.read_u8()?;
            let a: u8 = read.read_u8()?;
            Some(RGBA256 { r, g, b, a })
        } else {
            None
        };
        Ok(UserDataChunk { flags, text, color })
    }

    /// Tells whether the chunk can be encoded, without encoding it.
    pub fn check(&self) -> (r: Result<(), Error>)
        ensures
            match self@.problem() {
                None => r is Ok,
                Some(e) => r == Err::<(), Error>(e),
            },
    {
        if self.flags.contains(Flags::HAS_TEXT) {
            match &self.text {
                None => {
                    return Err(Error::FlagDataMismatch(Gated::Text));
                },
                Some(text) => {
                    check_string(text.as_str())?;
                },
            }
        }
        if self.flags.contains(Flags::HAS_COLOR) && self.color.is_none() {
            return Err(Error::FlagDataMismatch(Gated::Color));
        }
        Ok(())
    }

    /// Encodes the chunk. A flag that announces a field which is absent is
    /// an error, and so is a text that is too long; nothing is written then.
    pub fn write(&self, wtr: &mut Vec<u8>) -> (r: Result<(), Error>)
        ensures
            writes(old(wtr)@, final(wtr)@, r, self@.problem(), self@.bytes()),
    {
        self.check()?;
        write_u32(wtr, self.flags.bits);
        if self.flags.contains(Flags::HAS_TEXT) {
            match &self.text {
                None => {},
                Some(text) => {
                    let _ = write_string(wtr, text.as_str());
                },
            }
        }
        if self.flags.contains(Flags::HAS_COLOR) {
            match &self.color {
                None => {},
                Some(color) => {
                    write_u8(wtr, color.r);
                    write_u8(wtr, color.g);
                    write_u8(wtr, color.b);
                    write_u8(wtr, color.a);
                },
            }
        }
        Ok(())
    }
}

/// A user data chunk that was written reads back as it was.
pub proof fn lemma_user_data_roundtrip(v: UserDataChunkView, s: Seq<u8>, p: int)
    requires
        v.wf(),
        v.problem() is None,
        placed(s, p, v.bytes()),
    ensures
        spec_read_user_data(s, p) == Ok::<(UserDataChunkView, int), Error>(
            (v, p + v.bytes().len()),
        ),
{
    broadcast use group_placed;

    let q = if v.flags.spec_contains(Flags::HAS_TEXT) {
        lemma_string_roundtrip(v.text->Some_0, s, p + 4);
        p + 4 + string_bytes(v.text->Some_0).len()
    } else {
        p + 4
    };
    if v.flags.spec_contains(Flags::HAS_COLOR) {
        let c = rgba_bytes(v.color->Some_0);
        assert(placed(s, q, c));
        lemma_placed_index(s, q, c, 0);
        lemma_placed_index(s, q, c, 1);
        lemma_placed_index(s, q, c, 2);
        lemma_placed_index(s, q, c, 3);
    }
}

/// What holds of a user data chunk that was decoded: it is well formed and
/// can be encoded, and the decoder stopped within the input.
pub proof fn lemma_decoded_user_data(s: Seq<u8>, p: int)
    requires
        spec_read_user_data(s, p) is Ok,
    ensures
        spec_read_user_data(s, p)->Ok_0.0.wf(),
        spec_read_user_data(s, p)->Ok_0.0.problem() is None,
        p <= spec_read_user_data(s, p)->Ok_0.1 <= s.len(),
{
    let raw = u32_at(s, p);
    assert((raw & 3) & 3 == raw & 3) by (bit_vector);
    let flags = Flags { bits: raw & Flags::ALL };
    if flags.spec_contains(Flags::HAS_TEXT) {
        lemma_decoded_string(s, p + 4);
    }
}

/// A user data chunk that decodes from `s` decodes to the same from every
/// input that begins with `s`.
pub proof fn lemma_user_data_extends(s: Seq<u8>, t: Seq<u8>, p: int)
    requires
        begins(s, t),
        spec_read_user_data(s, p) is Ok,
    ensures
        spec_read_user_data(t, p) == spec_read_user_data(s, p),
{
    let flags = Flags { bits: u32_at(s, p) & Flags::ALL };
    if flags.spec_contains(Flags::HAS_TEXT) {
        lemma_string_extends(s, t, p + 4);
    }
}

} // verus!
