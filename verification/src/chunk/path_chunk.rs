//! The path chunk: a placeholder without content.
use crate::error::Error;
use crate::reader::{avail, reads, Reader};
use crate::wire::{begins};
use vstd::prelude::*;

verus! {

/// A path chunk. It holds nothing.
#[derive(Debug, Clone, Copy, PartialEq, Eq, Structural)]
pub struct PathChunk {}

impl View for PathChunk {
    type V = PathChunk;

    open spec fn view(&self) -> PathChunk {
        *self
    }
}

/// A path chunk whose payload takes `size` bytes from position `p` on: the
/// bytes have to be there, and none of them is looked at.
pub open spec fn spec_read_path(s: Seq<u8>, p: int, size: int) -> Result<(PathChunk, int), Error> {
    if !avail(s, p, size) {
        Err(Error::UnexpectedEof)
    } else {
        Ok((PathChunk {  }, p + size))
    }
}

impl PathChunk {
    /// Passes over the `chunk_data_size` bytes of the payload. Where fewer
    /// are there, the reader stays where it stood.
    pub fn from_read(read: &mut Reader, chunk_data_size: u32) -> (r: Result<PathChunk, Error>)
        ensures
            reads(
                *old(read),
                *final(read),
                r,
                spec_read_path(old(read).data(), old(read).pos() as int, chunk_data_size as int),
            ),
            r is Err ==> final(read).pos() == old(read).pos(),
    {
        read.skip(chunk_data_size as usize)?;
        Ok(PathChunk {  })
    }

    /// Writes the payload of a path chunk, which is empty.
    pub fn write(&self, wtr: &mut Vec<u8>) -> (r: Result<(), Error>)
        ensures
            r is Ok,
            final(wtr)@ == old(wtr)@,
    {
        Ok(())
    }
}

/// A path chunk that decodes from `s` decodes to the same from every input
/// that begins with `s`.
pub proof fn lemma_path_extends(s: Seq<u8>, t: Seq<u8>, p: int, size: int)
    requires
        begins(s, t),
        spec_read_path(s, p, size) is Ok,
    ensures
        spec_read_path(t, p, size) == spec_read_path(s, p, size),
{
}

} // verus!
