//! The input side: a byte buffer with a read position.
use crate::error::Error;
use crate::wire::{
    i16_at, i32_at, le_read_i16, le_read_i32, le_read_u16, le_read_u32, u16_at, u32_at,
};
use vstd::prelude::*;
use vstd::slice::slice_subrange;

verus! {

/// A document's bytes and the position of the next byte to decode. The
/// position never passes the end of the bytes.
#[derive(Debug)]
pub struct Reader {
    bytes: Vec<u8>,
    pos: usize,
}

/// What a decoder owes its caller. The bytes stay as they were, and the
/// position stays within them. Where `want` names a value and a position,
/// the decoder returns a value with that view and stops at that position;
/// where it names an error, that error is returned, and the position is
/// left open.
pub open spec fn reads<T: View>(
    before: Reader,
    after: Reader,
    got: Result<T, Error>,
    want: Result<(T::V, int), Error>,
) -> bool {
    &&& after.data() == before.data()
    &&& before.pos() <= before.data().len()
    &&& after.pos() <= after.data().len()
    &&& match want {
        Ok((v, p)) => got is Ok && got->Ok_0@ == v && after.pos() == p,
        Err(e) => got == Err::<T, Error>(e),
    }
}

/// `n` bytes are there from position `p` on.
pub open spec fn avail(s: Seq<u8>, p: int, n: int) -> bool {
    0 <= p && 0 <= n && p + n <= s.len()
}

/// The byte at position `p`.
pub open spec fn spec_read_u8(s: Seq<u8>, p: int) -> Result<(u8, int), Error> {
    if avail(s, p, 1) {
        Ok((s[p], p + 1))
    } else {
        Err(Error::UnexpectedEof)
    }
}

/// The unsigned 16-bit field at position `p`.
pub open spec fn spec_read_u16(s: Seq<u8>, p: int) -> Result<(u16, int), Error> {
    if avail(s, p, 2) {
        Ok((u16_at(s, p), p + 2))
    } else {
        Err(Error::UnexpectedEof)
    }
}

/// The signed 16-bit field at position `p`.
pub open spec fn spec_read_i16(s: Seq<u8>, p: int) -> Result<(i16, int), Error> {
    if avail(s, p, 2) {
        Ok((i16_at(s, p), p + 2))
    } else {
        Err(Error::UnexpectedEof)
    }
}

/// The unsigned 32-bit field at position `p`.
pub open spec fn spec_read_u32(s: Seq<u8>, p: int) -> Result<(u32, int), Error> {
    if avail(s, p, 4) {
        Ok((u32_at(s, p), p + 4))
    } else {
        Err(Error::UnexpectedEof)
    }
}

/// The signed 32-bit field at position `p`.
pub open spec fn spec_read_i32(s: Seq<u8>, p: int) -> Result<(i32, int), Error> {
    if avail(s, p, 4) {
        Ok((i32_at(s, p), p + 4))
    } else {
        Err(Error::UnexpectedEof)
    }
}

/// The `n` bytes from position `p` on.
pub open spec fn spec_read_bytes(s: Seq<u8>, p: int, n: int) -> Result<(Seq<u8>, int), Error> {
    if avail(s, p, n) {
        Ok((s.subrange(p, p + n), p + n))
    } else {
        Err(Error::UnexpectedEof)
    }
}

impl Reader {
    #[verifier::type_invariant]
    spec fn in_bounds(self) -> bool {
        self.pos <= self.bytes@.len()
    }

    /// The bytes, read or not.
    pub closed spec fn data(&self) -> Seq<u8> {
        self.bytes@
    }

    /// How many of the bytes have been passed. Of a reader that exists at
    /// run time this is the position that it holds; the bound makes the
    /// number meaningful for every value that a proof may speak of.
    pub closed spec fn pos(&self) -> nat {
        if self.pos <= self.bytes@.len() {
            self.pos as nat
        } else {
            self.bytes@.len()
        }
    }

    /// The position never passes the end of the bytes.
    pub broadcast proof fn lemma_in_bounds(self)
        ensures
            #[trigger] self.pos() <= self.data().len(),
    {
    }

    /// A reader at the start of `bytes`.
    pub fn new(bytes: Vec<u8>) -> (r: Reader)
        ensures
            r.data() == bytes@,
            r.pos() == 0,
    {
        Reader { bytes, pos: 0 }
    }

    /// The position of the next byte.
    pub fn position(&self) -> (p: usize)
        ensures
            p == self.pos(),
            p <= self.data().len(),
    {
        proof {
            use_type_invariant(self);
        }
        self.pos
    }

    /// The number of bytes not yet passed.
    pub fn remaining(&self) -> (n: usize)
        ensures
            n == self.data().len() - self.pos(),
    {
        proof {
            use_type_invariant(self);
        }
        self.bytes.len() - self.pos
    }

    /// Fails unless `n` more bytes are there. Moves nothing.
    pub fn need(&self, n: usize) -> (r: Result<(), Error>)
        ensures
            self.pos() <= self.data().len(),
            avail(self.data(), self.pos() as int, n as int) ==> r is Ok,
            !avail(self.data(), self.pos() as int, n as int) ==> r == Err::<(), Error>(
                Error::UnexpectedEof,
            ),
    {
        if self.remaining() < n {
            Err(Error::UnexpectedEof)
        } else {
            Ok(())
        }
    }

    /// Passes over `n` bytes, which must be there.
    pub fn skip(&mut self, n: usize) -> (r: Result<(), Error>)
        ensures
            final(self).data() == old(self).data(),
            final(self).pos() <= final(self).data().len(),
            avail(old(self).data(), old(self).pos() as int, n as int) ==> r is Ok
                && final(self).pos() == old(self).pos() + n,
            !avail(old(self).data(), old(self).pos() as int, n as int) ==> r == Err::<(), Error>(
                Error::UnexpectedEof,
            ) && final(self).pos() == old(self).pos(),
    {
        proof {
            use_type_invariant(&*self);
        }
        if self.bytes.len() - self.pos < n {
            Err(Error::UnexpectedEof)
        } else {
            self.pos = self.pos + n;
            Ok(())
        }
    }

    /// Reads one byte.
    pub fn read_u8(&mut self) -> (r: Result<u8, Error>)
        ensures
            reads(
                *old(self),
                *final(self),
                r,
                spec_read_u8(old(self).data(), old(self).pos() as int),
            ),
            r is Err ==> final(self).pos() == old(self).pos(),
    {
        proof {
            use_type_invariant(&*self);
        }
        if self.bytes.len() - self.pos < 1 {
            Err(Error::UnexpectedEof)
        } else {
            let v: u8 = self.bytes[self.pos];
            self.pos = self.pos + 1;
            Ok(v)
        }
    }

    /// Reads an unsigned 16-bit field, low byte first.
    pub fn read_u16(&mut self) -> (r: Result<u16, Error>)
        ensures
            reads(
                *old(self),
                *final(self),
                r,
                spec_read_u16(old(self).data(), old(self).pos() as int),
            ),
            r is Err ==> final(self).pos() == old(self).pos(),
    {
        proof {
            use_type_invariant(&*self);
        }
        if self.bytes.len() - self.pos < 2 {
            Err(Error::UnexpectedEof)
        } else {
            let v: u16 = le_read_u16(slice_subrange(self.bytes.as_slice(), self.pos, self.pos + 2));
            self.pos = self.pos + 2;
            Ok(v)
        }
    }

    /// Reads a signed 16-bit field, low byte first.
    pub fn read_i16(&mut self) -> (r: Result<i16, Error>)
        ensures
            reads(
                *old(self),
                *final(self),
                r,
                spec_read_i16(old(self).data(), old(self).pos() as int),
            ),
            r is Err ==> final(self).pos() == old(self).pos(),
    {
        proof {
            use_type_invariant(&*self);
        }
        if self.bytes.len() - self.pos < 2 {
            Err(Error::UnexpectedEof)
        } else {
            let v: i16 = le_read_i16(slice_subrange(self.bytes.as_slice(), self.pos, self.pos + 2));
            self.pos = self.pos + 2;
            Ok(v)
        }
    }

    /// Reads an unsigned 32-bit field, low byte first.
    pub fn read_u32(&mut self) -> (r: Result<u32, Error>)
        ensures
            reads(
                *old(self),
                *final(self),
                r,
                spec_read_u32(old(self).data(), old(self).pos() as int),
            ),
            r is Err ==> final(self).pos() == old(self).pos(),
    {
        proof {
            use_type_invariant(&*self);
        }
        if self.bytes.len() - self.pos < 4 {
            Err(Error::UnexpectedEof)
        } else {
            let v: u32 = le_read_u32(slice_subrange(self.bytes.as_slice(), self.pos, self.pos + 4));
            self.pos = self.pos + 4;
            Ok(v)
        }
    }

    /// Reads a signed 32-bit field, low byte first.
    pub fn read_i32(&mut self) -> (r: Result<i32, Error>)
        ensures
            reads(
                *old(self),
                *final(self),
                r,
                spec_read_i32(old(self).data(), old(self).pos() as int),
            ),
            r is Err ==> final(self).pos() == old(self).pos(),
    {
        proof {
            use_type_invariant(&*self);
        }
        if self.bytes.len() - self.pos < 4 {
            Err(Error::UnexpectedEof)
        } else {
            let v: i32 = le_read_i32(slice_subrange(self.bytes.as_slice(), self.pos, self.pos + 4));
            self.pos = self.pos + 4;
            Ok(v)
        }
    }

    /// Copies out the next `n` bytes.
    pub fn read_vec(&mut self, n: usize) -> (r: Result<Vec<u8>, Error>)
        ensures
            reads(
                *old(self),
                *final(self),
                r,
                spec_read_bytes(old(self).data(), old(self).pos() as int, n as int),
            ),
            r is Err ==> final(self).pos() == old(self).pos(),
    {
        proof {
            use_type_invariant(&*self);
        }
        if self.bytes.len() - self.pos < n {
            Err(Error::UnexpectedEof)
        } else {
            let mut out: Vec<u8> = Vec::new();
            out.extend_from_slice(slice_subrange(self.bytes.as_slice(), self.pos, self.pos + n));
            assert(out@ =~= self.bytes@.subrange(self.pos as int, self.pos + n));
            self.pos = self.pos + n;
            Ok(out)
        }
    }
}

} // verus!
