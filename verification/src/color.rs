//! Colours and flat pixel buffers.
use crate::error::Error;
use crate::reader::{avail, reads, Reader};
use crate::wire::{begins, lemma_placed_index, placed};
use crate::writer::{write_bytes, write_u8};
use vstd::prelude::*;

verus! {

broadcast use Reader::lemma_in_bounds;

/// A colour with 8 bits a channel.
#[derive(Debug, Default, Clone, Copy, PartialEq, Eq, Structural)]
pub struct RGB256 {
    pub r: u8,
    pub g: u8,
    pub b: u8,
}

/// A colour of the oldest palettes, with 6 bits a channel (0 to 63).
#[derive(Debug, Default, Clone, Copy, PartialEq, Eq, Structural)]
pub struct RGB64 {
    pub r: u8,
    pub g: u8,
    pub b: u8,
}

/// A colour with 8 bits a channel and an alpha channel.
#[derive(Debug, Default, Clone, Copy, PartialEq, Eq, Structural)]
pub struct RGBA256 {
    pub r: u8,
    pub g: u8,
    pub b: u8,
    pub a: u8,
}

/// A gray value with an alpha channel.
#[derive(Debug, Default, Clone, Copy, PartialEq, Eq, Structural)]
pub struct Grayscale256 {
    pub v: u8,
    pub a: u8,
}

/// A flat pixel buffer in one of the three layouts. Which one a cel holds
/// follows from the document's colour depth, not from the buffer.
#[derive(Debug, PartialEq, Eq)]
pub enum Pixels {
    RGBA(Vec<RGBA256>),
    Grayscale(Vec<Grayscale256>),
    Indexed(Vec<u8>),
}

/// The pixels of a buffer as mathematical sequences.
pub ghost enum PixelsView {
    RGBA(Seq<RGBA256>),
    Grayscale(Seq<Grayscale256>),
    Indexed(Seq<u8>),
}

impl View for Pixels {
    type V = PixelsView;

    open spec fn view(&self) -> PixelsView {
        match self {
            Pixels::RGBA(v) => PixelsView::RGBA(v@),
            Pixels::Grayscale(v) => PixelsView::Grayscale(v@),
            Pixels::Indexed(v) => PixelsView::Indexed(v@),
        }
    }
}

/// The colour whose three bytes start at position `p`.
pub open spec fn rgb256_at(s: Seq<u8>, p: int) -> RGB256 {
    RGB256 { r: s[p], g: s[p + 1], b: s[p + 2] }
}

/// The colour whose three bytes start at position `p`.
pub open spec fn rgb64_at(s: Seq<u8>, p: int) -> RGB64 {
    RGB64 { r: s[p], g: s[p + 1], b: s[p + 2] }
}

/// The colour whose four bytes start at position `p`.
pub open spec fn rgba_at(s: Seq<u8>, p: int) -> RGBA256 {
    RGBA256 { r: s[p], g: s[p + 1], b: s[p + 2], a: s[p + 3] }
}

/// The gray value whose two bytes start at position `p`.
pub open spec fn gray_at(s: Seq<u8>, p: int) -> Grayscale256 {
    Grayscale256 { v: s[p], a: s[p + 1] }
}

/// The three bytes of a colour: red, green, blue.
pub open spec fn rgb256_bytes(c: RGB256) -> Seq<u8> {
    seq![c.r, c.g, c.b]
}

/// The three bytes of a colour: red, green, blue.
pub open spec fn rgb64_bytes(c: RGB64) -> Seq<u8> {
    seq![c.r, c.g, c.b]
}

/// The four bytes of a colour: red, green, blue, alpha.
pub open spec fn rgba_bytes(c: RGBA256) -> Seq<u8> {
    seq![c.r, c.g, c.b, c.a]
}

/// The two bytes of a gray value: value, alpha.
pub open spec fn gray_bytes(c: Grayscale256) -> Seq<u8> {
    seq![c.v, c.a]
}

/// The bytes of a run of RGBA pixels: four a pixel, in order.
pub open spec fn rgba_run_bytes(px: Seq<RGBA256>) -> Seq<u8> {
    Seq::new(4 * px.len(), |k: int| rgba_bytes(px[k / 4])[k % 4])
}

/// The bytes of a run of grayscale pixels: two a pixel, in order.
pub open spec fn gray_run_bytes(px: Seq<Grayscale256>) -> Seq<u8> {
    Seq::new(2 * px.len(), |k: int| gray_bytes(px[k / 2])[k % 2])
}

/// A pixel buffer on the wire.
pub open spec fn pixels_bytes(px: PixelsView) -> Seq<u8> {
    match px {
        PixelsView::RGBA(v) => rgba_run_bytes(v),
        PixelsView::Grayscale(v) => gray_run_bytes(v),
        PixelsView::Indexed(v) => v,
    }
}

/// A region of `size` bytes as RGBA pixels.
pub open spec fn spec_read_rgba(s: Seq<u8>, p: int, size: int) -> Result<(PixelsView, int), Error> {
    if size % 4 != 0 {
        Err(Error::PixelSizeMismatch(4))
    } else if !avail(s, p, size) {
        Err(Error::UnexpectedEof)
    } else {
        Ok((PixelsView::RGBA(Seq::new((size / 4) as nat, |i: int| rgba_at(s, p + 4 * i))), p + size))
    }
}

/// A region of `size` bytes as grayscale pixels.
pub open spec fn spec_read_grayscale(s: Seq<u8>, p: int, size: int) -> Result<
    (PixelsView, int),
    Error,
> {
    if size % 2 != 0 {
        Err(Error::PixelSizeMismatch(2))
    } else if !avail(s, p, size) {
        Err(Error::UnexpectedEof)
    } else {
        Ok(
            (
                PixelsView::Grayscale(Seq::new((size / 2) as nat, |i: int| gray_at(s, p + 2 * i))),
                p + size,
            ),
        )
    }
}

/// A region of `size` bytes as palette indices.
pub open spec fn spec_read_indexed(s: Seq<u8>, p: int, size: int) -> Result<
    (PixelsView, int),
    Error,
> {
    if !avail(s, p, size) {
        Err(Error::UnexpectedEof)
    } else {
        Ok((PixelsView::Indexed(s.subrange(p, p + size)), p + size))
    }
}

impl Clone for Pixels {
    fn clone(&self) -> (r: Pixels)
        ensures
            r@ == self@,
    {
        match self {
            Pixels::RGBA(v) => Pixels::RGBA(v.clone()),
            Pixels::Grayscale(v) => Pixels::Grayscale(v.clone()),
            Pixels::Indexed(v) => Pixels::Indexed(v.clone()),
        }
    }
}

impl Pixels {
    /// Decodes `pixels_size` bytes as RGBA pixels. A size that is no multiple
    /// of 4 is refused before anything is read, and so is a size that the
    /// input does not hold: a failure leaves the reader where it stood.
    pub fn rgba_from_read(read: &mut Reader, pixels_size: usize) -> (r: Result<Pixels, Error>)
        ensures
            reads(
                *old(read),
                *final(read),
                r,
                spec_read_rgba(old(read).data(), old(read).pos() as int, pixels_size as int),
            ),
            r is Err ==> final(read).pos() == old(read).pos(),
    {
        if pixels_size % 4 != 0 {
            return Err(Error::PixelSizeMismatch(4));
        }
        read.need(pixels_size)?;
        let pixel_count: usize = pixels_size / 4;
        let ghost s = read.data();
        let ghost p0 = read.pos() as int;
        let mut pixels: Vec<RGBA256> = Vec::new();
        let mut i: usize = 0;
        while i < pixel_count
            invariant
                i <= pixel_count,
                pixel_count * 4 == pixels_size,
                p0 + pixels_size <= s.len(),
                read.data() == s,
                read.pos() == p0 + 4 * i,
                pixels@ =~= Seq::new(i as nat, |k: int| rgba_at(s, p0 + 4 * k)),
            decreases pixel_count - i,
        {
            let r: u8 = read.read_u8()?;
            let g: u8 = read.read_u8()?;
            let b: u8 = read.read_u8()?;
            let a: u8 = read.read_u8()?;
            pixels.push(RGBA256 { r, g, b, a });
            i = i + 1;
        }
        Ok(Pixels::RGBA(pixels))
    }

    /// Decodes `pixels_size` bytes as grayscale pixels. An odd size is
    /// refused before anything is read, and so is a size that the input
    /// does not hold: a failure leaves the reader where it stood.
    pub fn grayscale_from_read(read: &mut Reader, pixels_size: usize) -> (r: Result<Pixels, Error>)
        ensures
            reads(
                *old(read),
                *final(read),
                r,
                spec_read_grayscale(old(read).data(), old(read).pos() as int, pixels_size as int),
            ),
            r is Err ==> final(read).pos() == old(read).pos(),
    {
        if pixels_size % 2 != 0 {
            return Err(Error::PixelSizeMismatch(2));
        }
        read.need(pixels_size)?;
        let pixel_count: usize = pixels_size / 2;
        let ghost s = read.data();
        let ghost p0 = read.pos() as int;
        let mut pixels: Vec<Grayscale256> = Vec::new();
        let mut i: usize = 0;
        while i < pixel_count
            invariant
                i <= pixel_count,
                pixel_count * 2 == pixels_size,
                p0 + pixels_size <= s.len(),
                read.data() == s,
                read.pos() == p0 + 2 * i,
                pixels@ =~= Seq::new(i as nat, |k: int| gray_at(s, p0 + 2 * k)),
            decreases pixel_count - i,
        {
            let v: u8 = read.read_u8()?;
            let a: u8 = read.read_u8()?;
            pixels.push(Grayscale256 { v, a });
            i = i + 1;
        }
        Ok(Pixels::Grayscale(pixels))
    }

    /// Decodes `pixels_size` bytes as palette indices. Every size is in
    /// order; a size that the input does not hold is refused, and leaves
    /// the reader where it stood.
    pub fn indexed_from_read(read: &mut Reader, pixels_size: usize) -> (r: Result<Pixels, Error>)
        ensures
            reads(
                *old(read),
                *final(read),
                r,
                spec_read_indexed(old(read).data(), old(read).pos() as int, pixels_size as int),
            ),
            r is Err ==> final(read).pos() == old(read).pos(),
    {
        let indices: Vec<u8> = read.read_vec(pixels_size)?;
        Ok(Pixels::Indexed(indices))
    }

    /// Appends the pixels in their layout. Nothing is checked, and nothing
    /// can fail: the variant says which layout it is.
    pub fn write(&self, wtr: &mut Vec<u8>) -> (r: Result<(), Error>)
        ensures
            r is Ok,
            final(wtr)@ == old(wtr)@ + pixels_bytes(self@),
    {
        match self {
            Pixels::RGBA(cols) => {
                let mut i: usize = 0;
                while i < cols.len()
                    invariant
                        i <= cols.len(),
                        wtr@ =~= old(wtr)@ + rgba_run_bytes(cols@.take(i as int)),
                    decreases cols.len() - i,
                {
                    let col: RGBA256 = cols[i];
                    write_u8(wtr, col.r);
                    write_u8(wtr, col.g);
                    write_u8(wtr, col.b);
                    write_u8(wtr, col.a);
                    i = i + 1;
                }
                assert(cols@.take(i as int) =~= cols@);
            },
            Pixels::Grayscale(cols) => {
                let mut i: usize = 0;
                while i < cols.len()
                    invariant
                        i <= cols.len(),
                        wtr@ =~= old(wtr)@ + gray_run_bytes(cols@.take(i as int)),
                    decreases cols.len() - i,
                {
                    let col: Grayscale256 = cols[i];
                    write_u8(wtr, col.v);
                    write_u8(wtr, col.a);
                    i = i + 1;
                }
                assert(cols@.take(i as int) =~= cols@);
            },
            Pixels::Indexed(indices) => {
                write_bytes(wtr, indices.as_slice());
            },
        }
        Ok(())
    }
}

/// A run of RGBA pixels that was written reads back as it was.
pub proof fn lemma_rgba_roundtrip(px: Seq<RGBA256>, s: Seq<u8>, p: int)
    requires
        placed(s, p, rgba_run_bytes(px)),
    ensures
        spec_read_rgba(s, p, 4 * (px.len() as int)) == Ok::<(PixelsView, int), Error>(
            (PixelsView::RGBA(px), p + 4 * px.len()),
        ),
{
    let run = rgba_run_bytes(px);
    let got = Seq::new(px.len(), |i: int| rgba_at(s, p + 4 * i));
    assert(got =~= px) by {
        assert forall|i: int| 0 <= i < px.len() implies got[i] == px[i] by {
            lemma_placed_index(s, p, run, 4 * i);
            lemma_placed_index(s, p, run, 4 * i + 1);
            lemma_placed_index(s, p, run, 4 * i + 2);
            lemma_placed_index(s, p, run, 4 * i + 3);
        }
    }
    assert((4 * px.len()) / 4 == px.len());
}

/// A run of grayscale pixels that was written reads back as it was.
pub proof fn lemma_grayscale_roundtrip(px: Seq<Grayscale256>, s: Seq<u8>, p: int)
    requires
        placed(s, p, gray_run_bytes(px)),
    ensures
        spec_read_grayscale(s, p, 2 * (px.len() as int)) == Ok::<(PixelsView, int), Error>(
            (PixelsView::Grayscale(px), p + 2 * px.len()),
        ),
{
    let run = gray_run_bytes(px);
    let got = Seq::new(px.len(), |i: int| gray_at(s, p + 2 * i));
    assert(got =~= px) by {
        assert forall|i: int| 0 <= i < px.len() implies got[i] == px[i] by {
            lemma_placed_index(s, p, run, 2 * i);
            lemma_placed_index(s, p, run, 2 * i + 1);
        }
    }
    assert((2 * px.len()) / 2 == px.len());
}

/// A run of palette indices that was written reads back as it was.
pub proof fn lemma_indexed_roundtrip(px: Seq<u8>, s: Seq<u8>, p: int)
    requires
        placed(s, p, px),
    ensures
        spec_read_indexed(s, p, px.len() as int) == Ok::<(PixelsView, int), Error>(
            (PixelsView::Indexed(px), p + px.len()),
        ),
{
}

/// Pixels that decode from `s` decode to the same from every input that
/// begins with `s`.
pub proof fn lemma_rgba_extends(s: Seq<u8>, t: Seq<u8>, p: int, size: int)
    requires
        begins(s, t),
        spec_read_rgba(s, p, size) is Ok,
    ensures
        spec_read_rgba(t, p, size) == spec_read_rgba(s, p, size),
{
    let n = (size / 4) as nat;
    let from_s = Seq::new(n, |i: int| rgba_at(s, p + 4 * i));
    let from_t = Seq::new(n, |i: int| rgba_at(t, p + 4 * i));
    assert(from_s =~= from_t) by {
        assert forall|i: int| 0 <= i < n implies from_s[i] == from_t[i] by {
            assert(s[p + 4 * i] == t[p + 4 * i]);
            assert(s[p + 4 * i + 1] == t[p + 4 * i + 1]);
            assert(s[p + 4 * i + 2] == t[p + 4 * i + 2]);
            assert(s[p + 4 * i + 3] == t[p + 4 * i + 3]);
        }
    }
}

/// Pixels that decode from `s` decode to the same from every input that
/// begins with `s`.
pub proof fn lemma_grayscale_extends(s: Seq<u8>, t: Seq<u8>, p: int, size: int)
    requires
        begins(s, t),
        spec_read_grayscale(s, p, size) is Ok,
    ensures
        spec_read_grayscale(t, p, size) == spec_read_grayscale(s, p, size),
{
    let n = (size / 2) as nat;
    let from_s = Seq::new(n, |i: int| gray_at(s, p + 2 * i));
    let from_t = Seq::new(n, |i: int| gray_at(t, p + 2 * i));
    assert(from_s =~= from_t) by {
        assert forall|i: int| 0 <= i < n implies from_s[i] == from_t[i] by {
            assert(s[p + 2 * i] == t[p + 2 * i]);
            assert(s[p + 2 * i + 1] == t[p + 2 * i + 1]);
        }
    }
}

/// Pixels that decode from `s` decode to the same from every input that
/// begins with `s`.
pub proof fn lemma_indexed_extends(s: Seq<u8>, t: Seq<u8>, p: int, size: int)
    requires
        begins(s, t),
        spec_read_indexed(s, p, size) is Ok,
    ensures
        spec_read_indexed(t, p, size) == spec_read_indexed(s, p, size),
{
    assert(s.subrange(p, p + size) =~= t.subrange(p, p + size));
}

} // verus!
