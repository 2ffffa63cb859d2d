//! The output side: little-endian fields appended to a byte vector.
use crate::error::Error;
use crate::wire::{
    i16_bytes, i32_bytes, le_write_i16, le_write_i32, le_write_u16, le_write_u32, u16_bytes,
    u32_bytes, zeros,
};
use vstd::prelude::*;

verus! {

/// Appends one byte.
pub fn write_u8(wtr: &mut Vec<u8>, v: u8)
    ensures
        final(wtr)@ == old(wtr)@ + seq![v],
{
    wtr.push(v);
}

/// Appends an unsigned 16-bit field, low byte first.
pub fn write_u16(wtr: &mut Vec<u8>, v: u16)
    ensures
        final(wtr)@ == old(wtr)@ + u16_bytes(v),
{
    let b: [u8; 2] = le_write_u16(v);
    wtr.push(b[0]);
    wtr.push(b[1]);
}

/// Appends a signed 16-bit field, low byte first.
pub fn write_i16(wtr: &mut Vec<u8>, v: i16)
    ensures
        final(wtr)@ == old(wtr)@ + i16_bytes(v),
{
    let b: [u8; 2] = le_write_i16(v);
    wtr.push(b[0]);
    wtr.push(b[1]);
}

/// Appends an unsigned 32-bit field, low byte first.
pub fn write_u32(wtr: &mut Vec<u8>, v: u32)
    ensures
        final(wtr)@ == old(wtr)@ + u32_bytes(v),
{
    let b: [u8; 4] = le_write_u32(v);
    wtr.push(b[0]);
    wtr.push(b[1]);
    wtr.push(b[2]);
    wtr.push(b[3]);
}

/// Appends a signed 32-bit field, low byte first.
pub fn write_i32(wtr: &mut Vec<u8>, v: i32)
    ensures
        final(wtr)@ == old(wtr)@ + i32_bytes(v),
{
    let b: [u8; 4] = le_write_i32(v);
    wtr.push(b[0]);
    wtr.push(b[1]);
    wtr.push(b[2]);
    wtr.push(b[3]);
}

/// Appends `n` zero bytes: a reserved region.
pub fn write_zeros(wtr: &mut Vec<u8>, n: usize)
    ensures
        final(wtr)@ == old(wtr)@ + zeros(n as nat),
{
    let mut i: usize = 0;
    while i < n
        invariant
            i <= n,
            wtr@ == old(wtr)@ + zeros(i as nat),
        decreases n - i,
    {
        wtr.push(0u8);
        i = i + 1;
    }
}

/// Appends a run of bytes as it stands.
pub fn write_bytes(wtr: &mut Vec<u8>, bytes: &[u8])
    ensures
        final(wtr)@ == old(wtr)@ + bytes@,
{
    wtr.extend_from_slice(bytes);
}

} // verus!

verus! {

/// What an encoder owes its caller. Where nothing is wrong with the value,
/// its bytes are appended; where something is, that is the error, and the
/// output stays as it was.
pub open spec fn writes(
    before: Seq<u8>,
    after: Seq<u8>,
    got: Result<(), Error>,
    problem: Option<Error>,
    bytes: Seq<u8>,
) -> bool {
    match problem {
        None => got is Ok && after =~= before + bytes,
        Some(e) => got == Err::<(), Error>(e) && after == before,
    }
}

} // verus!
