//! The layer chunk: one layer of the document's layer stack.
use crate::error::{Discriminant, Error};
use crate::helpers::{
    check_string, lemma_decoded_string, lemma_string_extends, lemma_string_roundtrip, read_string,
    spec_read_string, string_bytes, string_problem, write_string,
};
use crate::reader::{avail, reads, Reader};
use crate::wire::{begins, group_placed, placed, u16_at, u16_bytes, zeros};
use crate::writer::{write_u16, write_u8, write_zeros, writes};
use vstd::prelude::*;

verus! {

/// The flag bits of a layer.
#[derive(Debug, Clone, Copy, PartialEq, Eq, Structural)]
pub struct Flags {
    pub bits: u16,
}

impl Flags {
    /// The layer is shown.
    pub const VISIBLE: u16 = 1;

    /// The layer can be edited.
    pub const EDITABLE: u16 = 2;

    /// The layer cannot be moved.
    pub const LOCK_MOVEMENT: u16 = 4;

    /// The layer is the background.
    pub const BACKGROUND: u16 = 8;

    /// New cels of the layer are linked cels by preference.
    pub const PREFER_LINKED_CELS: u16 = 16;

    /// The layer group is shown collapsed.
    pub const DISPLAY_COLLAPSED: u16 = 32;

    /// The layer is a reference layer.
    pub const REFERENCE_LAYER: u16 = 64;

    /// Every bit that has a meaning.
    pub const ALL: u16 = 127;

    /// Whether no bit without a meaning is set.
    pub open spec fn known(self) -> bool {
        self.bits & Flags::ALL == self.bits
    }

    /// Whether every bit of `mask` is set.
    pub open spec fn spec_contains(self, mask: u16) -> bool {
        self.bits & mask == mask
    }

    /// Keeps the bits that have a meaning and drops the others.
    pub fn from_bits_truncate(bits: u16) -> (f: Flags)
        ensures
            f.bits == bits & Flags::ALL,
    {
        Flags { bits: bits & Flags::ALL }
    }

    /// Whether every bit of `mask` is set.
    #[verifier::when_used_as_spec(spec_contains)]
    pub fn contains(self, mask: u16) -> (b: bool)
        ensures
            b == self.spec_contains(mask),
    {
        self.bits & mask == mask
    }
}

/// The kind of layer: one that holds cels, or a group of layers.
#[derive(Debug, Clone, Copy, PartialEq, Eq, Structural)]
pub enum LayerType {
    Normal,
    Group,
}

impl LayerType {
    /// The value that stands for the variant on the wire.
    pub open spec fn spec_code(self) -> u16 {
        match self {
            LayerType::Normal => 0,
            LayerType::Group => 1,
        }
    }

    /// The variant that a wire value stands for, if any.
    pub open spec fn spec_from_code(code: u16) -> Option<LayerType> {
        if code == 0 {
            Some(LayerType::Normal)
        } else if code == 1 {
            Some(LayerType::Group)
        } else {
            None
        }
    }

    /// The value that stands for the variant on the wire.
    #[verifier::when_used_as_spec(spec_code)]
    pub fn code(self) -> (c: u16)
        ensures
            c == self.spec_code(),
    {
        match self {
            LayerType::Normal => 0,
            LayerType::Group => 1,
        }
    }

    /// Maps a wire value to its layer type and refuses every other value.
    pub fn from_code(code: u16) -> (r: Result<LayerType, Error>)
        ensures
            match LayerType::spec_from_code(code) {
                Some(t) => r == Ok::<LayerType, Error>(t),
                None => r == Err::<LayerType, Error>(
                    Error::InvalidDiscriminant(Discriminant::LayerType, code),
                ),
            },
    {
        if code == 0 {
            Ok(LayerType::Normal)
        } else if code == 1 {
            Ok(LayerType::Group)
        } else {
            Err(Error::InvalidDiscriminant(Discriminant::LayerType, code))
        }
    }

    /// Every layer type comes back from its wire value.
    pub proof fn lemma_code_roundtrip(self)
        ensures
            LayerType::spec_from_code(self.spec_code()) == Some(self),
    {
    }
}

/// How a layer is blended with what lies under it.
#[derive(Debug, Clone, Copy, PartialEq, Eq, Structural)]
pub enum BlendMode {
    Normal,
    Multiply,
    Screen,
    Overlay,
    Darken,
    Lighten,
    ColorDodge,
    ColorBurn,
    HardLight,
    SoftLight,
    Difference,
    Exclusion,
    Hue,
    Saturation,
    Color,
    Luminosity,
    Addition,
    Subtract,
    Divide,
}

impl BlendMode {
    /// The value that stands for the mode on the wire: 0 to 18, in the
    /// order of the variants.
    pub open spec fn spec_code(self) -> u16 {
        match self {
            BlendMode::Normal => 0,
            BlendMode::Multiply => 1,
            BlendMode::Screen => 2,
            BlendMode::Overlay => 3,
            BlendMode::Darken => 4,
            BlendMode::Lighten => 5,
            BlendMode::ColorDodge => 6,
            BlendMode::ColorBurn => 7,
            BlendMode::HardLight => 8,
            BlendMode::SoftLight => 9,
            BlendMode::Difference => 10,
            BlendMode::Exclusion => 11,
            BlendMode::Hue => 12,
            BlendMode::Saturation => 13,
            BlendMode::Color => 14,
            BlendMode::Luminosity => 15,
            BlendMode::Addition => 16,
            BlendMode::Subtract => 17,
            BlendMode::Divide => 18,
        }
    }

    /// The mode that a wire value stands for, if any: the one whose code it
    /// is.
    pub open spec fn spec_from_code(code: u16) -> Option<BlendMode> {
        if code == 0 {
            Some(BlendMode::Normal)
        } else if code == 1 {
            Some(BlendMode::Multiply)
        } else if code == 2 {
            Some(BlendMode::Screen)
        } else if code == 3 {
            Some(BlendMode::Overlay)
        } else if code == 4 {
            Some(BlendMode::Darken)
        } else if code == 5 {
            Some(BlendMode::Lighten)
        } else if code == 6 {
            Some(BlendMode::ColorDodge)
        } else if code == 7 {
            Some(BlendMode::ColorBurn)
        } else if code == 8 {
            Some(BlendMode::HardLight)
        } else if code == 9 {
            Some(BlendMode::SoftLight)
        } else if code == 10 {
            Some(BlendMode::Difference)
        } else if code == 11 {
            Some(BlendMode::Exclusion)
        } else if code == 12 {
            Some(BlendMode::Hue)
        } else if code == 13 {
            Some(BlendMode::Saturation)
        } else if code == 14 {
            Some(BlendMode::Color)
        } else if code == 15 {
            Some(BlendMode::Luminosity)
        } else if code == 16 {
            Some(BlendMode::Addition)
        } else if code == 17 {
            Some(BlendMode::Subtract)
        } else if code == 18 {
            Some(BlendMode::Divide)
        } else {
            None
        }
    }

    /// The value that stands for the variant on the wire.
    #[verifier::when_used_as_spec(spec_code)]
    pub fn code(self) -> (c: u16)
        ensures
            c == self.spec_code(),
    {
        match self {
            BlendMode::Normal => 0,
            BlendMode::Multiply => 1,
            BlendMode::Screen => 2,
            BlendMode::Overlay => 3,
            BlendMode::Darken => 4,
            BlendMode::Lighten => 5,
            BlendMode::ColorDodge => 6,
            BlendMode::ColorBurn => 7,
            BlendMode::HardLight => 8,
            BlendMode::SoftLight => 9,
            BlendMode::Difference => 10,
            BlendMode::Exclusion => 11,
            BlendMode::Hue => 12,
            BlendMode::Saturation => 13,
            BlendMode::Color => 14,
            BlendMode::Luminosity => 15,
            BlendMode::Addition => 16,
            BlendMode::Subtract => 17,
            BlendMode::Divide => 18,
        }
    }

    /// Maps a wire value to its blend mode and refuses every other value.
    pub fn from_code(code: u16) -> (r: Result<BlendMode, Error>)
        ensures
            match BlendMode::spec_from_code(code) {
                Some(m) => r == Ok::<BlendMode, Error>(m),
                None => r == Err::<BlendMode, Error>(
                    Error::InvalidDiscriminant(Discriminant::BlendMode, code),
                ),
            },
    {
        match code {
            0 => Ok(BlendMode::Normal),
            1 => Ok(BlendMode::Multiply),
            2 => Ok(BlendMode::Screen),
            3 => Ok(BlendMode::Overlay),
            4 => Ok(BlendMode::Darken),
            5 => Ok(BlendMode::Lighten),
            6 => Ok(BlendMode::ColorDodge),
            7 => Ok(BlendMode::ColorBurn),
            8 => Ok(BlendMode::HardLight),
            9 => Ok(BlendMode::SoftLight),
            10 => Ok(BlendMode::Difference),
            11 => Ok(BlendMode::Exclusion),
            12 => Ok(BlendMode::Hue),
            13 => Ok(BlendMode::Saturation),
            14 => Ok(BlendMode::Color),
            15 => Ok(BlendMode::Luminosity),
            16 => Ok(BlendMode::Addition),
            17 => Ok(BlendMode::Subtract),
            18 => Ok(BlendMode::Divide),
            _ => Err(Error::InvalidDiscriminant(Discriminant::BlendMode, code)),
        }
    }

    /// Every blend mode comes back from its wire value.
    pub proof fn lemma_code_roundtrip(self)
        ensures
            BlendMode::spec_from_code(self.spec_code()) == Some(self),
    {
    }
}

/// A layer of the document.
#[derive(Debug, Clone, PartialEq, Eq)]
pub struct LayerChunk {
    pub flags: Flags,
    pub layer_type: LayerType,
    pub layer_child_level: u16,
    pub blend_mode: BlendMode,
    pub opacity: u8,
    pub layer_name: String,
}

/// The value of a [`LayerChunk`] as mathematics: sequences in place of vectors
/// and strings.
pub ghost struct LayerChunkView {
    pub flags: Flags,
    pub layer_type: LayerType,
    pub layer_child_level: u16,
    pub blend_mode: BlendMode,
    pub opacity: u8,
    pub layer_name: Seq<char>,
}

impl View for LayerChunk {
    type V = LayerChunkView;

    open spec fn view(&self) -> LayerChunkView {
        LayerChunkView {
            flags: self.flags,
            layer_type: self.layer_type,
            layer_child_level: self.layer_child_level,
            blend_mode: self.blend_mode,
            opacity: self.opacity,
            layer_name: self.layer_name@,
        }
    }
}

/// The layer chunk that starts at position `p`: 16 bytes of fixed fields,
/// then the name.
pub open spec fn spec_read_layer(s: Seq<u8>, p: int) -> Result<(LayerChunkView, int), Error> {
    if !avail(s, p, 16) {
        Err(Error::UnexpectedEof)
    } else {
        match LayerType::spec_from_code(u16_at(s, p + 2)) {
            None => Err(Error::InvalidDiscriminant(Discriminant::LayerType, u16_at(s, p + 2))),
            Some(layer_type) => match BlendMode::spec_from_code(u16_at(s, p + 10)) {
                None => Err(Error::InvalidDiscriminant(Discriminant::BlendMode, u16_at(s, p + 10))),
                Some(blend_mode) => match spec_read_string(s, p + 16) {
                    Err(e) => Err(e),
                    Ok((layer_name, q)) => Ok(
                        (
                            LayerChunkView {
                                flags: Flags { bits: u16_at(s, p) & Flags::ALL },
                                layer_type,
                                layer_child_level: u16_at(s, p + 4),
                                blend_mode,
                                opacity: s[p + 12],
                                layer_name,
                            },
                            q,
                        ),
                    ),
                },
            },
        }
    }
}

impl LayerChunkView {
    /// No flag bit without a meaning is set.
    pub open spec fn wf(self) -> bool {
        self.flags.known()
    }

    /// What stands in the way of encoding, if anything: a name too long for
    /// its length prefix.
    pub open spec fn problem(self) -> Option<Error> {
        string_problem(self.layer_name)
    }

    /// The chunk on the wire. Reserved regions are zero.
    pub open spec fn bytes(self) -> Seq<u8> {
        u16_bytes(self.flags.bits) + u16_bytes(self.layer_type.spec_code()) + u16_bytes(
            self.layer_child_level,
        ) + zeros(4) + u16_bytes(self.blend_mode.spec_code()) + seq![self.opacity] + zeros(3)
            + string_bytes(self.layer_name)
    }
}

impl LayerChunk {
    /// An editable normal layer, opaque, at the top level and with normal
    /// blending; visible if `visible` says so.
    pub fn new(layer_name: &str, visible: bool) -> (r: LayerChunk)
        ensures
            r@ == (LayerChunkView {
                flags: Flags {
                    bits: if visible {
                        3
                    } else {
                        2
                    },
                },
                layer_type: LayerType::Normal,
                layer_child_level: 0,
                blend_mode: BlendMode::Normal,
                opacity: 255,
                layer_name: layer_name@,
            }),
    {
        let mut flags: Flags = Flags { bits: Flags::EDITABLE };
        if visible {
            flags.bits = flags.bits | Flags::VISIBLE;
            assert(2u16 | 1u16 == 3u16) by (bit_vector);
        }
        LayerChunk {
            flags,
            layer_type: LayerType::Normal,
            layer_child_level: 0,
            blend_mode: BlendMode::Normal,
            opacity: 255,
            layer_name: layer_name.to_owned(),
        }
    }

    /// Decodes a layer chunk from where the reader stands.
    pub fn from_read(read: &mut Reader) -> (r: Result<LayerChunk, Error>)
        ensures
            reads(
                *old(read),
                *final(read),
                r,
                spec_read_layer(old(read).data(), old(read).pos() as int),
            ),
    {
        read.need(16)?;
        let flags: Flags = Flags::from_bits_truncate(read.read_u16()?);
        let layer_type: LayerType = LayerType::from_code(read.read_u16()?)?;
        let layer_child_level: u16 = read.read_u16()?;
        read.skip(2 + 2)?;
        let blend_mode: BlendMode = BlendMode::from_code(read.read_u16()?)?;
        let opacity: u8 = read.read_u8()?;
        read.skip(3)?;
        let layer_name: String = read_string(read)?;
        Ok(LayerChunk { flags, layer_type, layer_child_level, blend_mode, opacity, layer_name })
    }

    /// Encodes the layer chunk, or writes nothing where it cannot be encoded.
    pub fn write(&self, wtr: &mut Vec<u8>) -> (r: Result<(), Error>)
        ensures
            writes(old(wtr)@, final(wtr)@, r, self@.problem(), self@.bytes()),
    {
        check_string(self.layer_name.as_str())?;
        write_u16(wtr, self.flags.bits);
        write_u16(wtr, self.layer_type.code());
        write_u16(wtr, self.layer_child_level);
        write_zeros(wtr, 2 + 2);
        write_u16(wtr, self.blend_mode.code());
        write_u8(wtr, self.opacity);
        write_zeros(wtr, 3);
        write_string(wtr, self.layer_name.as_str())
    }
}

/// A layer chunk that was written reads back as it was.
pub proof fn lemma_layer_roundtrip(v: LayerChunkView, s: Seq<u8>, p: int)
    requires
        v.wf(),
        v.problem() is None,
        placed(s, p, v.bytes()),
    ensures
        spec_read_layer(s, p) == Ok::<(LayerChunkView, int), Error>((v, p + v.bytes().len())),
{
    broadcast use group_placed;

    v.layer_type.lemma_code_roundtrip();
    v.blend_mode.lemma_code_roundtrip();
    lemma_string_roundtrip(v.layer_name, s, p + 16);
}

/// What holds of a layer chunk that was decoded: it is well formed and can
/// be encoded, and the decoder stopped within the input.
pub proof fn lemma_decoded_layer(s: Seq<u8>, p: int)
    requires
        spec_read_layer(s, p) is Ok,
    ensures
        spec_read_layer(s, p)->Ok_0.0.wf(),
        spec_read_layer(s, p)->Ok_0.0.problem() is None,
        p <= spec_read_layer(s, p)->Ok_0.1 <= s.len(),
{
    let raw = u16_at(s, p);
    assert((raw & 127) & 127 == raw & 127) by (bit_vector);
    lemma_decoded_string(s, p + 16);
}

/// A layer chunk that decodes from `s` decodes to the same from every input
/// that begins with `s`.
pub proof fn lemma_layer_extends(s: Seq<u8>, t: Seq<u8>, p: int)
    requires
        begins(s, t),
        spec_read_layer(s, p) is Ok,
    ensures
        spec_read_layer(t, p) == spec_read_layer(s, p),
{
    lemma_string_extends(s, t, p + 16);
}

} // verus!
