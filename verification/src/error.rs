use vstd::prelude::*;

verus! {

/// The enumerated wire fields. Each holds one value of a closed set; any
/// other value stops the decode.
#[derive(Debug, Clone, Copy, PartialEq, Eq, Structural)]
pub enum Discriminant {
    ColorDepth,
    ChunkType,
    CelType,
    LayerType,
    BlendMode,
    LoopDirection,
    ProfileType,
}

/// The optional fields that a flag bit announces.
#[derive(Debug, Clone, Copy, PartialEq, Eq, Structural)]
pub enum Gated {
    Text,
    Color,
    ColorName,
    NinePatches,
    Pivot,
}

/// Why a decode or an encode stopped. Nothing is recovered from: the first
/// failure is the result of the whole call.
#[derive(Debug, Clone, Copy, PartialEq, Eq, Structural)]
pub enum Error {
    /// Fewer bytes are left than the next field or record takes.
    UnexpectedEof,
    /// An enumerated field holds a value outside its set. The value is kept,
    /// widened to 16 bits.
    InvalidDiscriminant(Discriminant, u16),
    /// A pixel region's byte length is no multiple of the pixel size, which
    /// is the number kept.
    PixelSizeMismatch(u8),
    /// The bytes of a string are not UTF-8.
    InvalidUtf8,
    /// A chunk declares a length shorter than the fixed part of its record.
    InvalidChunkSize,
    /// A palette chunk names a range of indices whose first index lies
    /// behind its last.
    InvalidRange,
    /// On encode: a flag bit is set and the field that it announces is absent.
    FlagDataMismatch(Gated),
    /// On encode: a length or a count does not fit the field that carries it.
    TooLarge,
}

} // verus!
