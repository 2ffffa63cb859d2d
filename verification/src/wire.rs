//! Little-endian integers as byte sequences, and the position calculus that
//! the decoders and the round-trip proofs share.
use byteorder::{ByteOrder, LittleEndian};
use vstd::prelude::*;

verus! {

/// The unsigned 16-bit integer whose little-endian bytes are `b0 b1`.
#[verifier::opaque]
pub open spec fn le_u16(b0: u8, b1: u8) -> u16 {
    (b0 as int + 256 * (b1 as int)) as u16
}

/// The unsigned 32-bit integer whose little-endian bytes are `b0 b1 b2 b3`.
#[verifier::opaque]
pub open spec fn le_u32(b0: u8, b1: u8, b2: u8, b3: u8) -> u32 {
    (b0 as int + 256 * (b1 as int) + 65536 * (b2 as int) + 16777216 * (b3 as int)) as u32
}

/// Two's complement reading of 16 bits.
#[verifier::opaque]
pub open spec fn as_signed16(v: u16) -> i16 {
    (if v < 0x8000 {
        v as int
    } else {
        v as int - 0x1_0000
    }) as i16
}

/// Two's complement reading of 32 bits.
#[verifier::opaque]
pub open spec fn as_signed32(v: u32) -> i32 {
    (if v < 0x8000_0000 {
        v as int
    } else {
        v as int - 0x1_0000_0000
    }) as i32
}

/// The 16 bits that stand for `v` in two's complement.
#[verifier::opaque]
pub open spec fn as_unsigned16(v: i16) -> u16 {
    (if v < 0 {
        v as int + 0x1_0000
    } else {
        v as int
    }) as u16
}

/// The 32 bits that stand for `v` in two's complement.
#[verifier::opaque]
pub open spec fn as_unsigned32(v: i32) -> u32 {
    (if v < 0 {
        v as int + 0x1_0000_0000
    } else {
        v as int
    }) as u32
}

/// The unsigned 16-bit integer whose two bytes start at position `p`.
pub open spec fn u16_at(s: Seq<u8>, p: int) -> u16 {
    le_u16(s[p], s[p + 1])
}

/// The unsigned 32-bit integer whose four bytes start at position `p`.
pub open spec fn u32_at(s: Seq<u8>, p: int) -> u32 {
    le_u32(s[p], s[p + 1], s[p + 2], s[p + 3])
}

/// The signed 16-bit integer whose two bytes start at position `p`.
pub open spec fn i16_at(s: Seq<u8>, p: int) -> i16 {
    as_signed16(u16_at(s, p))
}

/// The signed 32-bit integer whose four bytes start at position `p`.
pub open spec fn i32_at(s: Seq<u8>, p: int) -> i32 {
    as_signed32(u32_at(s, p))
}

/// The two bytes of `v`, low byte first.
#[verifier::opaque]
pub open spec fn u16_bytes(v: u16) -> Seq<u8> {
    seq![(v % 256) as u8, (v / 256) as u8]
}

/// The four bytes of `v`, low byte first.
#[verifier::opaque]
pub open spec fn u32_bytes(v: u32) -> Seq<u8> {
    seq![
        (v % 256) as u8,
        (v / 256 % 256) as u8,
        (v / 65536 % 256) as u8,
        (v / 16777216) as u8,
    ]
}

/// The two bytes of `v` in two's complement, low byte first.
pub open spec fn i16_bytes(v: i16) -> Seq<u8> {
    u16_bytes(as_unsigned16(v))
}

/// The four bytes of `v` in two's complement, low byte first.
pub open spec fn i32_bytes(v: i32) -> Seq<u8> {
    u32_bytes(as_unsigned32(v))
}

/// `n` zero bytes: what a reserved region holds when it is written.
pub open spec fn zeros(n: nat) -> Seq<u8> {
    Seq::new(n, |i: int| 0u8)
}

/// Calls `byteorder::LittleEndian::read_u16`, which reads the first two
/// bytes of the slice as a little-endian integer and panics on a shorter
/// slice.
#[verifier::external_body]
pub(crate) fn le_read_u16(buf: &[u8]) -> (v: u16)
    requires
        buf@.len() >= 2,
    ensures
        v == u16_at(buf@, 0),
{
    LittleEndian::read_u16(buf)
}

/// Calls `byteorder::LittleEndian::read_u32`, which reads the first four
/// bytes of the slice as a little-endian integer and panics on a shorter
/// slice.
#[verifier::external_body]
pub(crate) fn le_read_u32(buf: &[u8]) -> (v: u32)
    requires
        buf@.len() >= 4,
    ensures
        v == u32_at(buf@, 0),
{
    LittleEndian::read_u32(buf)
}

/// Calls `byteorder::LittleEndian::read_i16`: the two's complement reading
/// of what `read_u16` gives.
#[verifier::external_body]
pub(crate) fn le_read_i16(buf: &[u8]) -> (v: i16)
    requires
        buf@.len() >= 2,
    ensures
        v == i16_at(buf@, 0),
{
    LittleEndian::read_i16(buf)
}

/// Calls `byteorder::LittleEndian::read_i32`: the two's complement reading
/// of what `read_u32` gives.
#[verifier::external_body]
pub(crate) fn le_read_i32(buf: &[u8]) -> (v: i32)
    requires
        buf@.len() >= 4,
    ensures
        v == i32_at(buf@, 0),
{
    LittleEndian::read_i32(buf)
}

/// Calls `byteorder::LittleEndian::write_u16` on a two-byte array, which it
/// fills with the bytes of `n`, low byte first.
#[verifier::external_body]
pub(crate) fn le_write_u16(n: u16) -> (b: [u8; 2])
    ensures
        b@ == u16_bytes(n),
{
    let mut b = [0u8; 2];
    LittleEndian::write_u16(&mut b, n);
    b
}

/// Calls `byteorder::LittleEndian::write_u32` on a four-byte array, which it
/// fills with the bytes of `n`, low byte first.
#[verifier::external_body]
pub(crate) fn le_write_u32(n: u32) -> (b: [u8; 4])
    ensures
        b@ == u32_bytes(n),
{
    let mut b = [0u8; 4];
    LittleEndian::write_u32(&mut b, n);
    b
}

/// Calls `byteorder::LittleEndian::write_i16` on a two-byte array: the
/// bytes of the two's complement pattern of `n`, low byte first.
#[verifier::external_body]
pub(crate) fn le_write_i16(n: i16) -> (b: [u8; 2])
    ensures
        b@ == i16_bytes(n),
{
    let mut b = [0u8; 2];
    LittleEndian::write_i16(&mut b, n);
    b
}

/// Calls `byteorder::LittleEndian::write_i32` on a four-byte array: the
/// bytes of the two's complement pattern of `n`, low byte first.
#[verifier::external_body]
pub(crate) fn le_write_i32(n: i32) -> (b: [u8; 4])
    ensures
        b@ == i32_bytes(n),
{
    let mut b = [0u8; 4];
    LittleEndian::write_i32(&mut b, n);
    b
}

} // verus!

verus! {

/// The bytes `part` lie in `s` from position `p` on.
pub open spec fn placed(s: Seq<u8>, p: int, part: Seq<u8>) -> bool {
    &&& 0 <= p
    &&& p + part.len() <= s.len()
    &&& s.subrange(p, p + part.len()) == part
}

/// Two parts lie one after the other exactly where their concatenation lies.
pub proof fn lemma_placed_concat(s: Seq<u8>, p: int, a: Seq<u8>, b: Seq<u8>)
    ensures
        placed(s, p, a + b) <==> placed(s, p, a) && placed(s, p + a.len(), b),
{
    let ab = a + b;
    if placed(s, p, ab) {
        assert(s.subrange(p, p + a.len()) =~= a) by {
            assert forall|i: int| 0 <= i < a.len() implies s[p + i] == a[i] by {
                assert(s.subrange(p, p + ab.len())[i] == ab[i]);
            }
        }
        assert(s.subrange(p + a.len(), p + a.len() + b.len()) =~= b) by {
            assert forall|i: int| 0 <= i < b.len() implies s[p + a.len() + i] == b[i] by {
                assert(s.subrange(p, p + ab.len())[a.len() + i] == ab[a.len() + i]);
            }
        }
    }
    if placed(s, p, a) && placed(s, p + a.len(), b) {
        assert(s.subrange(p, p + ab.len()) =~= ab) by {
            assert forall|i: int| 0 <= i < ab.len() implies s[p + i] == ab[i] by {
                if i < a.len() {
                    assert(s.subrange(p, p + a.len())[i] == a[i]);
                } else {
                    assert(s.subrange(p + a.len(), p + a.len() + b.len())[i - a.len()] == b[i
                        - a.len()]);
                }
            }
        }
    }
}

/// Where a concatenation lies, its two parts lie one after the other.
pub broadcast proof fn lemma_placed_split(s: Seq<u8>, p: int, a: Seq<u8>, b: Seq<u8>)
    requires
        #[trigger] placed(s, p, a + b),
    ensures
        placed(s, p, a),
        placed(s, p + a.len(), b),
        (a + b).len() == a.len() + b.len(),
{
    lemma_placed_concat(s, p, a, b);
}

/// Every byte of a part that lies in `s` is the byte of `s` at its place.
pub proof fn lemma_placed_index(s: Seq<u8>, p: int, part: Seq<u8>, i: int)
    requires
        placed(s, p, part),
        0 <= i < part.len(),
    ensures
        s[p + i] == part[i],
{
    assert(s.subrange(p, p + part.len())[i] == part[i]);
}

/// A single byte that lies in `s` is the byte of `s` at its place.
pub broadcast proof fn lemma_u8_roundtrip(s: Seq<u8>, p: int, v: u8)
    requires
        #[trigger] placed(s, p, seq![v]),
    ensures
        s[p] == v,
{
    lemma_placed_index(s, p, seq![v], 0);
}

/// The bytes of `v` read back as `v`.
pub broadcast proof fn lemma_u16_roundtrip(s: Seq<u8>, p: int, v: u16)
    requires
        #[trigger] placed(s, p, u16_bytes(v)),
    ensures
        u16_at(s, p) == v,
{
    reveal(u16_bytes);
    reveal(le_u16);
    lemma_placed_index(s, p, u16_bytes(v), 0);
    lemma_placed_index(s, p, u16_bytes(v), 1);
}

/// The bytes of `v` read back as `v`.
pub broadcast proof fn lemma_u32_roundtrip(s: Seq<u8>, p: int, v: u32)
    requires
        #[trigger] placed(s, p, u32_bytes(v)),
    ensures
        u32_at(s, p) == v,
{
    reveal(u32_bytes);
    reveal(le_u32);
    lemma_placed_index(s, p, u32_bytes(v), 0);
    lemma_placed_index(s, p, u32_bytes(v), 1);
    lemma_placed_index(s, p, u32_bytes(v), 2);
    lemma_placed_index(s, p, u32_bytes(v), 3);
}

/// The bytes of `v` read back as `v`.
pub broadcast proof fn lemma_i16_roundtrip(s: Seq<u8>, p: int, v: i16)
    requires
        #[trigger] placed(s, p, i16_bytes(v)),
    ensures
        i16_at(s, p) == v,
{
    reveal(as_signed16);
    reveal(as_unsigned16);
    lemma_u16_roundtrip(s, p, as_unsigned16(v));
}

/// The bytes of `v` read back as `v`.
pub broadcast proof fn lemma_i32_roundtrip(s: Seq<u8>, p: int, v: i32)
    requires
        #[trigger] placed(s, p, i32_bytes(v)),
    ensures
        i32_at(s, p) == v,
{
    reveal(as_signed32);
    reveal(as_unsigned32);
    lemma_u32_roundtrip(s, p, as_unsigned32(v));
}

/// A 16-bit field takes two bytes.
pub broadcast proof fn lemma_u16_bytes_len(v: u16)
    ensures
        #[trigger] u16_bytes(v).len() == 2,
{
    reveal(u16_bytes);
}

/// A 32-bit field takes four bytes.
pub broadcast proof fn lemma_u32_bytes_len(v: u32)
    ensures
        #[trigger] u32_bytes(v).len() == 4,
{
    reveal(u32_bytes);
}

/// What a proof needs to read fixed fields back out of a written record.
pub broadcast group group_placed {
    lemma_u16_bytes_len,
    lemma_u32_bytes_len,
    lemma_placed_split,
    lemma_u8_roundtrip,
    lemma_u16_roundtrip,
    lemma_u32_roundtrip,
    lemma_i16_roundtrip,
    lemma_i32_roundtrip,
}

/// `s` is the beginning of `t`: `t` holds the bytes of `s` and may hold more
/// behind them.
pub open spec fn begins(s: Seq<u8>, t: Seq<u8>) -> bool {
    &&& s.len() <= t.len()
    &&& forall|i: int| 0 <= i < s.len() ==> #[trigger] s[i] == t[i]
}

} // verus!
