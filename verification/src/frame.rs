//! Frames: a 16-byte header, then the chunks of the frame.
use crate::chunk::{
    lemma_chunk_extends, lemma_chunk_roundtrip, lemma_decoded_chunk, spec_read_chunk, Chunk,
    ChunkView,
};
use crate::error::Error;
use crate::header::{ColorDepth, Header};
use crate::list::{
    after, lemma_read_run_done, lemma_read_run_extends, lemma_read_run_holds, lemma_read_run_step,
    lemma_run_bytes_fixed, lemma_run_bytes_push, lemma_run_problem_fixed, lemma_run_problem_none,
    lemma_run_problem_prefix, lemma_run_problem_push, lemma_run_roundtrip_fixed, run_bytes,
    run_problem, seq_view, spec_read_run,
};
use crate::reader::{avail, reads, Reader};
use crate::wire::{begins, group_placed, placed, u16_at, u16_bytes, u32_at, u32_bytes, zeros};
use crate::writer::{write_bytes, write_u16, write_u32, write_zeros, writes};
use vstd::prelude::*;

verus! {

broadcast use Reader::lemma_in_bounds;

/// A frame. `byte_count` and `number_of_chunks_old` are what a decoded
/// frame declared, and `number_of_chunks` is the count that the two count
/// fields resolve to. On encode all three are computed anew from `chunks`.
#[derive(Debug, Clone, PartialEq, Eq)]
pub struct Frame {
    pub byte_count: u32,
    pub frame_duration_milliseconds: u16,
    pub number_of_chunks_old: u16,
    pub number_of_chunks: u32,
    pub chunks: Vec<Chunk>,
}

/// The value of a [`Frame`] as mathematics: sequences in place of vectors
/// and strings.
pub ghost struct FrameView {
    pub byte_count: u32,
    pub frame_duration_milliseconds: u16,
    pub number_of_chunks_old: u16,
    pub number_of_chunks: u32,
    pub chunks: Seq<ChunkView>,
}

impl View for Frame {
    type V = FrameView;

    open spec fn view(&self) -> FrameView {
        FrameView {
            byte_count: self.byte_count,
            frame_duration_milliseconds: self.frame_duration_milliseconds,
            number_of_chunks_old: self.number_of_chunks_old,
            number_of_chunks: self.number_of_chunks,
            chunks: seq_view(self.chunks@),
        }
    }
}

/// The number that marks a frame.
pub const FRAME_MAGIC: u16 = 0xF1FA;

/// The largest count that the old, 16-bit count field stands for. The
/// value above it says that the count is in the new field.
pub const OLD_COUNT_LIMIT: u16 = 0xFFFE;

/// The number of chunks that the two count fields of a frame declare: the
/// new field where it is not zero, the old field where it is.
pub open spec fn spec_resolve_chunk_count(old_count: u16, new_count: u32) -> u32 {
    if new_count == 0 {
        old_count as u32
    } else {
        new_count
    }
}

/// What the old count field holds for a frame of `n` chunks: `n` where it
/// is below 0xFFFF, else 0xFFFF.
pub open spec fn old_count_of(n: int) -> u16 {
    if n <= OLD_COUNT_LIMIT {
        n as u16
    } else {
        0xFFFF
    }
}

/// What the new count field holds for a frame of `n` chunks: zero where
/// the old field holds the count, else `n`.
pub open spec fn new_count_of(n: int) -> u32 {
    if n <= OLD_COUNT_LIMIT {
        0
    } else {
        n as u32
    }
}

/// The decoder of one chunk, as a value that a run can take.
pub open spec fn chunk_reader(depth: ColorDepth) -> spec_fn(Seq<u8>, int) -> Result<
    (ChunkView, int),
    Error,
> {
    |s: Seq<u8>, p: int| spec_read_chunk(s, p, depth)
}

/// The bytes of one chunk, as a value that a run can take.
pub open spec fn chunk_bytes() -> spec_fn(ChunkView) -> Seq<u8> {
    |v: ChunkView| v.bytes()
}

/// The problem of one chunk, as a value that a run can take.
pub open spec fn chunk_problem() -> spec_fn(ChunkView) -> Option<Error> {
    |v: ChunkView| v.problem()
}

/// Whether one chunk is known to read back, as a value that a run can take.
pub open spec fn chunk_sound(depth: ColorDepth) -> spec_fn(ChunkView) -> bool {
    |v: ChunkView| v.wf(depth) && v.problem() is None
}

/// One chunk with its sizes filled in, as a value that a run can take.
pub open spec fn chunk_sized() -> spec_fn(ChunkView) -> ChunkView {
    |v: ChunkView| v.sized()
}

/// The frame that starts at position `p`, in a document of the given depth:
/// 16 bytes of header, then as many chunks as the count fields resolve to.
/// The magic number is not looked at.
pub open spec fn spec_read_frame(s: Seq<u8>, p: int, depth: ColorDepth) -> Result<
    (FrameView, int),
    Error,
> {
    if !avail(s, p, 16) {
        Err(Error::UnexpectedEof)
    } else {
        match spec_read_run(
            s,
            p + 16,
            spec_resolve_chunk_count(u16_at(s, p + 6), u32_at(s, p + 12)) as nat,
            chunk_reader(depth),
        ) {
            Err(e) => Err(e),
            Ok((chunks, q)) => Ok(
                (
                    FrameView {
                        byte_count: u32_at(s, p),
                        frame_duration_milliseconds: u16_at(s, p + 8),
                        number_of_chunks_old: u16_at(s, p + 6),
                        number_of_chunks: spec_resolve_chunk_count(
                            u16_at(s, p + 6),
                            u32_at(s, p + 12),
                        ),
                        chunks,
                    },
                    q,
                ),
            ),
        }
    }
}

impl FrameView {
    /// The bytes of the chunks of the frame, one after the other.
    pub open spec fn chunks_bytes(self) -> Seq<u8> {
        run_bytes(self.chunks, chunk_bytes())
    }

    /// What stands in the way of encoding the frame, if anything: the
    /// problem of the first chunk that has one, or else a frame too long
    /// for its length field.
    pub open spec fn problem(self) -> Option<Error> {
        match run_problem(self.chunks, chunk_problem()) {
            Some(e) => Some(e),
            None => if self.chunks.len() > u32::MAX || 16 + self.chunks_bytes().len() > u32::MAX {
                Some(Error::TooLarge)
            } else {
                None
            },
        }
    }

    /// The frame on the wire. Length and counts follow from the chunks,
    /// whatever the fields of the frame hold; the count stands in the old
    /// field where it fits there, and the reserved region is zero.
    pub open spec fn bytes(self) -> Seq<u8> {
        u32_bytes((16 + self.chunks_bytes().len()) as u32) + u16_bytes(FRAME_MAGIC) + u16_bytes(
            old_count_of(self.chunks.len() as int),
        ) + u16_bytes(self.frame_duration_milliseconds) + zeros(2) + u32_bytes(
            new_count_of(self.chunks.len() as int),
        ) + self.chunks_bytes()
    }

    /// Every chunk of the frame is well formed for a document of the given
    /// depth.
    pub open spec fn wf(self, depth: ColorDepth) -> bool {
        forall|i: int| 0 <= i < self.chunks.len() ==> (#[trigger] self.chunks[i]).wf(depth)
    }

    /// The frame with its length and count fields set to what it has on
    /// the wire, and every chunk with its length set likewise: what
    /// decoding its bytes gives.
    pub open spec fn sized(self) -> FrameView {
        FrameView {
            byte_count: (16 + self.chunks_bytes().len()) as u32,
            frame_duration_milliseconds: self.frame_duration_milliseconds,
            number_of_chunks_old: old_count_of(self.chunks.len() as int),
            number_of_chunks: self.chunks.len() as u32,
            chunks: self.chunks.map_values(chunk_sized()),
        }
    }
}

impl Default for Frame {
    fn default() -> (r: Frame)
        ensures
            r@ == (FrameView {
                byte_count: 0,
                frame_duration_milliseconds: 0,
                number_of_chunks_old: 0,
                number_of_chunks: 0,
                chunks: Seq::empty(),
            }),
    {
        Frame::new()
    }
}

impl Frame {
    /// A frame without chunks, with every field zero.
    pub fn new() -> (r: Frame)
        ensures
            r@ == (FrameView {
                byte_count: 0,
                frame_duration_milliseconds: 0,
                number_of_chunks_old: 0,
                number_of_chunks: 0,
                chunks: Seq::empty(),
            }),
    {
        let r = Frame {
            byte_count: 0,
            frame_duration_milliseconds: 0,
            number_of_chunks_old: 0,
            number_of_chunks: 0,
            chunks: Vec::new(),
        };
        assert(r@.chunks =~= Seq::empty());
        r
    }

    /// Appends a chunk to the frame and hands the frame back, so that
    /// calls can follow one another.
    pub fn add_chunk(&mut self, chunk: Chunk) -> (r: &mut Frame)
        ensures
            r@ == (FrameView { chunks: old(self)@.chunks.push(chunk@), ..old(self)@ }),
            *final(self) == *final(r),
    {
        self.chunks.push(chunk);
        assert(self@.chunks =~= old(self)@.chunks.push(chunk@));
        self
    }

    /// The number of chunks that the two count fields of a frame declare:
    /// the new field where it is not zero, the old field where it is.
    pub fn resolve_chunk_count(old_count: u16, new_count: u32) -> (n: u32)
        ensures
            n == spec_resolve_chunk_count(old_count, new_count),
    {
        if new_count == 0 {
            old_count as u32
        } else {
            new_count
        }
    }

    /// Decodes a frame and its chunks. The header gives the depth of raw
    /// pixels.
    #[verifier::loop_isolation(false)]
    pub fn from_read(read: &mut Reader, header: &Header) -> (r: Result<Frame, Error>)
        ensures
            reads(
                *old(read),
                *final(read),
                r,
                spec_read_frame(old(read).data(), old(read).pos() as int, header.color_depth),
            ),
            r is Ok ==> r->Ok_0@.wf(header.color_depth) && r->Ok_0@.chunks.len()
                == r->Ok_0@.number_of_chunks,
    {
        proof {
            if spec_read_frame(read.data(), read.pos() as int, header.color_depth) is Ok {
                lemma_decoded_frame(read.data(), read.pos() as int, header.color_depth);
            }
        }
        read.need(16)?;
        let byte_count: u32 = read.read_u32()?;
        read.skip(2)?;
        let number_of_chunks_old: u16 = read.read_u16()?;
        let frame_duration_milliseconds: u16 = read.read_u16()?;
        read.skip(2)?;
        let number_of_chunks_new: u32 = read.read_u32()?;
        let number_of_chunks: u32 = Frame::resolve_chunk_count(
            number_of_chunks_old,
            number_of_chunks_new,
        );
        let ghost s = read.data();
        let ghost p0 = read.pos() as int;
        let ghost one = chunk_reader(header.color_depth);
        let mut chunks: Vec<Chunk> = Vec::new();
        let mut i: u32 = 0;
        while i < number_of_chunks
            invariant
                i <= number_of_chunks,
                read.data() == s,
                after(
                    seq_view(chunks@),
                    spec_read_run(s, read.pos() as int, (number_of_chunks - i) as nat, one),
                ) == spec_read_run(s, p0, number_of_chunks as nat, one),
            decreases number_of_chunks - i,
        {
            proof {
                lemma_read_run_step(
                    s,
                    read.pos() as int,
                    (number_of_chunks - i) as nat,
                    one,
                    seq_view(chunks@),
                );
            }
            let ghost before = seq_view(chunks@);
            let chunk: Chunk = Chunk::from_read(read, header)?;
            chunks.push(chunk);
            assert(seq_view(chunks@) =~= before.push(chunk@));
            i = i + 1;
        }
        proof {
            lemma_read_run_done(s, read.pos() as int, one, seq_view(chunks@));
        }
        Ok(
            Frame {
                byte_count,
                frame_duration_milliseconds,
                number_of_chunks_old,
                number_of_chunks,
                chunks,
            },
        )
    }

    /// Encodes the frame. The chunks are encoded into a buffer of their own
    /// first, so that their length is known when the header is written.
    /// Nothing is written where a chunk cannot be encoded or the frame is
    /// too long for its length field.
    pub fn write(&self, wtr: &mut Vec<u8>) -> (r: Result<(), Error>)
        ensures
            writes(old(wtr)@, final(wtr)@, r, self@.problem(), self@.bytes()),
    {
        let ghost views = seq_view(self.chunks@);
        let mut chunks_buf: Vec<u8> = Vec::new();
        let mut i: usize = 0;
        while i < self.chunks.len()
            invariant
                i <= self.chunks.len(),
                views == seq_view(self.chunks@),
                run_problem(views.take(i as int), chunk_problem()) is None,
                chunks_buf@ == run_bytes(views.take(i as int), chunk_bytes()),
            decreases self.chunks.len() - i,
        {
            proof {
                lemma_run_problem_push(views.take(i as int), views[i as int], chunk_problem());
                lemma_run_bytes_push(views.take(i as int), views[i as int], chunk_bytes());
                assert(views.take(i as int).push(views[i as int]) =~= views.take(i + 1));
                if views[i as int].problem() is Some {
                    lemma_run_problem_prefix(views, i + 1, chunk_problem());
                }
            }
            self.chunks[i].write(&mut chunks_buf)?;
            i = i + 1;
        }
        assert(views.take(i as int) =~= views);
        let count: usize = self.chunks.len();
        if count > 0xFFFF_FFFF || chunks_buf.len() > 0xFFFF_FFFF - 16 {
            return Err(Error::TooLarge);
        }
        write_u32(wtr, 16 + chunks_buf.len() as u32);
        write_u16(wtr, FRAME_MAGIC);
        if count <= OLD_COUNT_LIMIT as usize {
            write_u16(wtr, count as u16);
        } else {
            write_u16(wtr, 0xFFFF);
        }
        write_u16(wtr, self.frame_duration_milliseconds);
        write_zeros(wtr, 2);
        if count <= OLD_COUNT_LIMIT as usize {
            write_u32(wtr, 0);
        } else {
            write_u32(wtr, count as u32);
        }
        write_bytes(wtr, chunks_buf.as_slice());
        Ok(())
    }
}

/// Filling in the sizes changes neither what a frame is on the wire nor
/// what stands in the way of encoding it, and keeps it well formed.
pub proof fn lemma_frame_sized(v: FrameView, depth: ColorDepth)
    ensures
        v.sized().bytes() == v.bytes(),
        v.sized().problem() == v.problem(),
        v.wf(depth) ==> v.sized().wf(depth),
        v.sized().sized() == v.sized(),
{
    lemma_run_bytes_fixed(v.chunks, chunk_bytes(), chunk_sized());
    lemma_run_problem_fixed(v.chunks, chunk_problem(), chunk_sized());
    lemma_run_bytes_fixed(v.sized().chunks, chunk_bytes(), chunk_sized());
    assert(v.sized().chunks.map_values(chunk_sized()) =~= v.sized().chunks);
}

/// A frame that was written reads back as it was, with its sizes filled
/// in.
pub proof fn lemma_frame_roundtrip(v: FrameView, depth: ColorDepth, s: Seq<u8>, p: int)
    requires
        v.wf(depth),
        v.problem() is None,
        placed(s, p, v.bytes()),
    ensures
        spec_read_frame(s, p, depth) == Ok::<(FrameView, int), Error>(
            (v.sized(), p + v.bytes().len()),
        ),
{
    broadcast use group_placed;

    let n = v.chunks.len() as int;
    assert(placed(s, p, u32_bytes((16 + v.chunks_bytes().len()) as u32)));
    assert(placed(s, p + 6, u16_bytes(old_count_of(n))));
    assert(placed(s, p + 8, u16_bytes(v.frame_duration_milliseconds)));
    assert(placed(s, p + 12, u32_bytes(new_count_of(n))));
    assert(placed(s, p + 16, v.chunks_bytes()));
    assert(spec_resolve_chunk_count(u16_at(s, p + 6), u32_at(s, p + 12)) == n);
    let one = chunk_reader(depth);
    let sound = chunk_sound(depth);
    assert forall|w: ChunkView, q: int|
        sound(w) && #[trigger] placed(s, q, chunk_bytes()(w)) implies one(s, q) == Ok::<
            (ChunkView, int),
            Error,
        >((chunk_sized()(w), q + chunk_bytes()(w).len())) by {
        lemma_chunk_roundtrip(w, depth, s, q);
    }
    assert forall|i: int| 0 <= i < v.chunks.len() implies #[trigger] sound(v.chunks[i]) by {
        assert(v.chunks[i].wf(depth));
        lemma_run_problem_none(v.chunks, chunk_problem(), i);
    }
    lemma_run_roundtrip_fixed(v.chunks, s, p + 16, one, chunk_bytes(), sound, chunk_sized());
}

/// What holds of a frame that was decoded: it holds as many chunks as its
/// count fields resolve to, every chunk is well formed for the depth that
/// the frame was decoded in, and the decoder stopped within the input.
pub proof fn lemma_decoded_frame(s: Seq<u8>, p: int, depth: ColorDepth)
    requires
        spec_read_frame(s, p, depth) is Ok,
    ensures
        spec_read_frame(s, p, depth)->Ok_0.0.wf(depth),
        spec_read_frame(s, p, depth)->Ok_0.0.chunks.len() == spec_read_frame(
            s,
            p,
            depth,
        )->Ok_0.0.number_of_chunks,
        spec_read_frame(s, p, depth)->Ok_0.0.number_of_chunks == spec_resolve_chunk_count(
            spec_read_frame(s, p, depth)->Ok_0.0.number_of_chunks_old,
            u32_at(s, p + 12),
        ),
        p + 16 <= spec_read_frame(s, p, depth)->Ok_0.1 <= s.len(),
{
    let one = chunk_reader(depth);
    let good = |v: ChunkView| v.wf(depth);
    assert forall|q: int| 0 <= q <= s.len() && (#[trigger] one(s, q)) is Ok implies good(
        one(s, q)->Ok_0.0,
    ) && q <= one(s, q)->Ok_0.1 <= s.len() by {
        lemma_decoded_chunk(s, q, depth);
    }
    lemma_read_run_holds(
        s,
        p + 16,
        spec_resolve_chunk_count(u16_at(s, p + 6), u32_at(s, p + 12)) as nat,
        one,
        good,
    );
}

/// A frame that decodes from `s` decodes to the same from every input that
/// begins with `s`.
pub proof fn lemma_frame_extends(s: Seq<u8>, t: Seq<u8>, p: int, depth: ColorDepth)
    requires
        begins(s, t),
        spec_read_frame(s, p, depth) is Ok,
    ensures
        spec_read_frame(t, p, depth) == spec_read_frame(s, p, depth),
{
    let one = chunk_reader(depth);
    assert(s[p] == t[p] && s[p + 15] == t[p + 15]);
    assert forall|q: int| (#[trigger] one(s, q)) is Ok implies one(t, q) == one(s, q) by {
        lemma_chunk_extends(s, t, q, depth);
    }
    lemma_read_run_extends(
        s,
        t,
        p + 16,
        spec_resolve_chunk_count(u16_at(s, p + 6), u32_at(s, p + 12)) as nat,
        one,
    );
}

} // verus!
