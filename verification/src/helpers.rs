//! Raw byte runs and length-prefixed strings, which nearly every chunk uses.
use crate::error::Error;
use crate::reader::{avail, reads, spec_read_bytes, Reader};
use crate::wire::{begins, group_placed, placed, u16_at, u16_bytes};
use crate::writer::{write_bytes, write_u16, writes};
use vstd::prelude::*;
use vstd::utf8::{decode_utf8, encode_utf8, valid_utf8};

verus! {

/// A string on the wire: the 16-bit count of its UTF-8 bytes, then the bytes.
pub open spec fn spec_read_string(s: Seq<u8>, p: int) -> Result<(Seq<char>, int), Error> {
    if !avail(s, p, 2) {
        Err(Error::UnexpectedEof)
    } else if !avail(s, p + 2, u16_at(s, p) as int) {
        Err(Error::UnexpectedEof)
    } else if !valid_utf8(s.subrange(p + 2, p + 2 + u16_at(s, p))) {
        Err(Error::InvalidUtf8)
    } else {
        Ok((decode_utf8(s.subrange(p + 2, p + 2 + u16_at(s, p))), p + 2 + u16_at(s, p)))
    }
}

/// Whether the text can be written: its UTF-8 length has to fit in 16 bits.
pub open spec fn string_fits(text: Seq<char>) -> bool {
    encode_utf8(text).len() <= 0xFFFF
}

/// The bytes that stand for `text`, where it fits.
pub open spec fn string_bytes(text: Seq<char>) -> Seq<u8> {
    u16_bytes(encode_utf8(text).len() as u16) + encode_utf8(text)
}

/// What stands in the way of writing `text`, if anything does.
pub open spec fn string_problem(text: Seq<char>) -> Option<Error> {
    if string_fits(text) {
        None
    } else {
        Some(Error::TooLarge)
    }
}

/// `String::from_utf8`: the text that the bytes encode, or nothing where
/// they are not UTF-8.
#[verifier::external_body]
fn string_from_utf8(bytes: Vec<u8>) -> (r: Option<String>)
    ensures
        valid_utf8(bytes@) ==> r is Some && r->Some_0@ == decode_utf8(bytes@),
        !valid_utf8(bytes@) ==> r is None,
{
    match String::from_utf8(bytes) {
        Ok(text) => Some(text),
        Err(_) => None,
    }
}

/// Reads exactly `length` bytes. Where fewer are there, nothing is read.
pub fn read_bytes(read: &mut Reader, length: usize) -> (r: Result<Vec<u8>, Error>)
    ensures
        reads(
            *old(read),
            *final(read),
            r,
            spec_read_bytes(old(read).data(), old(read).pos() as int, length as int),
        ),
        r is Err ==> final(read).pos() == old(read).pos(),
{
    read.read_vec(length)
}

/// Reads a length-prefixed string.
pub fn read_string(read: &mut Reader) -> (r: Result<String, Error>)
    ensures
        reads(
            *old(read),
            *final(read),
            r,
            spec_read_string(old(read).data(), old(read).pos() as int),
        ),
{
    let length: u16 = read.read_u16()?;
    let bytes: Vec<u8> = read_bytes(read, length as usize)?;
    match string_from_utf8(bytes) {
        Some(text) => Ok(text),
        None => Err(Error::InvalidUtf8),
    }
}

/// Tells whether `text` can be written, without writing it.
pub fn check_string(text: &str) -> (r: Result<(), Error>)
    ensures
        match string_problem(text@) {
            None => r is Ok,
            Some(e) => r == Err::<(), Error>(e),
        },
{
    if text.as_bytes().len() > 0xFFFF {
        Err(Error::TooLarge)
    } else {
        Ok(())
    }
}

/// Writes a length-prefixed string, or nothing where the text is too long
/// for its prefix.
pub fn write_string(wtr: &mut Vec<u8>, text: &str) -> (r: Result<(), Error>)
    ensures
        writes(old(wtr)@, final(wtr)@, r, string_problem(text@), string_bytes(text@)),
{
    let bytes: &[u8] = text.as_bytes();
    if bytes.len() > 0xFFFF {
        return Err(Error::TooLarge);
    }
    write_u16(wtr, bytes.len() as u16);
    write_bytes(wtr, bytes);
    Ok(())
}

/// Reading back what `write_string` wrote gives the text again, and stops
/// right behind it, whatever follows.
pub proof fn lemma_string_roundtrip(text: Seq<char>, s: Seq<u8>, p: int)
    requires
        string_fits(text),
        placed(s, p, string_bytes(text)),
    ensures
        spec_read_string(s, p) == Ok::<(Seq<char>, int), Error>(
            (text, p + string_bytes(text).len()),
        ),
{
    broadcast use group_placed;

    let body = encode_utf8(text);
    let n = body.len() as int;
    assert(placed(s, p, u16_bytes(n as u16)));
    assert(placed(s, p + 2, body));
    vstd::utf8::encode_utf8_valid_utf8(text);
    vstd::utf8::encode_utf8_decode_utf8(text);
}

/// What holds of a string that was decoded: it can be written again, and
/// the decoder stopped within the input, behind the length prefix.
pub proof fn lemma_decoded_string(s: Seq<u8>, p: int)
    requires
        spec_read_string(s, p) is Ok,
    ensures
        string_fits(spec_read_string(s, p)->Ok_0.0),
        p + 2 <= spec_read_string(s, p)->Ok_0.1 <= s.len(),
{
    let body = s.subrange(p + 2, p + 2 + u16_at(s, p));
    vstd::utf8::decode_utf8_encode_utf8(body);
}

/// A string that decodes from `s` decodes to the same from every input
/// that begins with `s`.
pub proof fn lemma_string_extends(s: Seq<u8>, t: Seq<u8>, p: int)
    requires
        begins(s, t),
        spec_read_string(s, p) is Ok,
    ensures
        spec_read_string(t, p) == spec_read_string(s, p),
{
    let n = u16_at(s, p) as int;
    assert(s[p] == t[p] && s[p + 1] == t[p + 1]);
    assert(s.subrange(p + 2, p + 2 + n) =~= t.subrange(p + 2, p + 2 + n));
}

} // verus!
