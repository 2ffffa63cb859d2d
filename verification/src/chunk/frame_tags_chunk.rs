//! The frame tags chunk: named ranges of frames.
use crate::color::{rgb256_bytes, RGB256};
use crate::error::{Discriminant, Error};
use crate::helpers::{
    check_string, lemma_decoded_string, lemma_string_extends, lemma_string_roundtrip, read_string,
    spec_read_string, string_bytes, string_problem, write_string,
};
use crate::list::{
    after, lemma_read_run_done, lemma_read_run_extends, lemma_read_run_holds, lemma_read_run_step,
    lemma_run_bytes_push, lemma_run_problem_all_none, lemma_run_problem_none,
    lemma_run_problem_prefix, lemma_run_problem_push, lemma_run_roundtrip, run_bytes, run_problem,
    seq_view, spec_read_run,
};
use crate::reader::{avail, reads, Reader};
use crate::wire::{begins, group_placed, lemma_placed_index, placed, u16_at, u16_bytes, zeros};
use crate::writer::{write_u16, write_u8, write_zeros, writes};
use vstd::prelude::*;

verus! {

broadcast use Reader::lemma_in_bounds;

/// The direction in which the frames of a tag are played.
#[derive(Debug, Clone, Copy, PartialEq, Eq, Structural)]
pub enum LoopAnimationDirection {
    Forward,
    Reverse,
    PingPong,
}

impl LoopAnimationDirection {
    /// The value that stands for the variant on the wire.
    pub open spec fn spec_code(self) -> u8 {
        match self {
            LoopAnimationDirection::Forward => 0,
            LoopAnimationDirection::Reverse => 1,
            LoopAnimationDirection::PingPong => 2,
        }
    }

    /// The variant that a wire value stands for, if any.
    pub open spec fn spec_from_code(code: u8) -> Option<LoopAnimationDirection> {
        if code == 0 {
            Some(LoopAnimationDirection::Forward)
        } else if code == 1 {
            Some(LoopAnimationDirection::Reverse)
        } else if code == 2 {
            Some(LoopAnimationDirection::PingPong)
        } else {
            None
        }
    }

    /// The value that stands for the variant on the wire.
    #[verifier::when_used_as_spec(spec_code)]
    pub fn code(self) -> (c: u8)
        ensures
            c == self.spec_code(),
    {
        match self {
            LoopAnimationDirection::Forward => 0,
            LoopAnimationDirection::Reverse => 1,
            LoopAnimationDirection::PingPong => 2,
        }
    }

    /// Maps a wire value to its direction and refuses every other value.
    pub fn from_code(code: u8) -> (r: Result<LoopAnimationDirection, Error>)
        ensures
            match LoopAnimationDirection::spec_from_code(code) {
                Some(d) => r == Ok::<LoopAnimationDirection, Error>(d),
                None => r == Err::<LoopAnimationDirection, Error>(
                    Error::InvalidDiscriminant(Discriminant::LoopDirection, code as u16),
                ),
            },
    {
        if code == 0 {
            Ok(LoopAnimationDirection::Forward)
        } else if code == 1 {
            Ok(LoopAnimationDirection::Reverse)
        } else if code == 2 {
            Ok(LoopAnimationDirection::PingPong)
        } else {
            Err(Error::InvalidDiscriminant(Discriminant::LoopDirection, code as u16))
        }
    }

    /// Every direction comes back from its wire value.
    pub proof fn lemma_code_roundtrip(self)
        ensures
            LoopAnimationDirection::spec_from_code(self.spec_code()) == Some(self),
    {
    }
}

/// A named range of frames.
#[derive(Debug, Clone, PartialEq, Eq)]
pub struct Tag {
    pub from_tag: u16,
    pub to_tag: u16,
    pub loop_animation_direction: LoopAnimationDirection,
    pub tag_color: RGB256,
    pub tag_name: String,
}

/// The value of a [`Tag`] as mathematics: sequences in place of vectors
/// and strings.
pub ghost struct TagView {
    pub from_tag: u16,
    pub to_tag: u16,
    pub loop_animation_direction: LoopAnimationDirection,
    pub tag_color: RGB256,
    pub tag_name: Seq<char>,
}

impl View for Tag {
    type V = TagView;

    open spec fn view(&self) -> TagView {
        TagView {
            from_tag: self.from_tag,
            to_tag: self.to_tag,
            loop_animation_direction: self.loop_animation_direction,
            tag_color: self.tag_color,
            tag_name: self.tag_name@,
        }
    }
}

/// The tags of a document. `number_of_tags` is written as it is stored.
#[derive(Debug, Clone, PartialEq, Eq)]
pub struct FrameTagsChunk {
    pub number_of_tags: u16,
    pub tags: Vec<Tag>,
}

/// The value of a [`FrameTagsChunk`] as mathematics: sequences in place of vectors
/// and strings.
pub ghost struct FrameTagsChunkView {
    pub number_of_tags: u16,
    pub tags: Seq<TagView>,
}

impl View for FrameTagsChunk {
    type V = FrameTagsChunkView;

    open spec fn view(&self) -> FrameTagsChunkView {
        FrameTagsChunkView { number_of_tags: self.number_of_tags, tags: seq_view(self.tags@) }
    }
}

/// The tag that starts at position `p`: 17 bytes of fixed fields, of which
/// nine are reserved, then the name.
pub open spec fn spec_read_tag(s: Seq<u8>, p: int) -> Result<(TagView, int), Error> {
    if !avail(s, p, 17) {
        Err(Error::UnexpectedEof)
    } else {
        match LoopAnimationDirection::spec_from_code(s[p + 4]) {
            None => Err(Error::InvalidDiscriminant(Discriminant::LoopDirection, s[p + 4] as u16)),
            Some(loop_animation_direction) => match spec_read_string(s, p + 17) {
                Err(e) => Err(e),
                Ok((tag_name, q)) => Ok(
                    (
                        TagView {
                            from_tag: u16_at(s, p),
                            to_tag: u16_at(s, p + 2),
                            loop_animation_direction,
                            tag_color: RGB256 { r: s[p + 13], g: s[p + 14], b: s[p + 15] },
                            tag_name,
                        },
                        q,
                    ),
                ),
            },
        }
    }
}

/// The decoder of one tag, as a value that a run can take.
pub open spec fn tag_reader() -> spec_fn(Seq<u8>, int) -> Result<(TagView, int), Error> {
    |s: Seq<u8>, p: int| spec_read_tag(s, p)
}

/// The chunk that starts at position `p`: a count, then that many tags.
pub open spec fn spec_read_frame_tags(s: Seq<u8>, p: int) -> Result<
    (FrameTagsChunkView, int),
    Error,
> {
    if !avail(s, p, 2) {
        Err(Error::UnexpectedEof)
    } else {
        match spec_read_run(s, p + 2, u16_at(s, p) as nat, tag_reader()) {
            Err(e) => Err(e),
            Ok((tags, q)) => Ok((FrameTagsChunkView { number_of_tags: u16_at(s, p), tags }, q)),
        }
    }
}

impl TagView {
    /// What stands in the way of encoding, if anything: a name too long for
    /// its length prefix.
    pub open spec fn problem(self) -> Option<Error> {
        string_problem(self.tag_name)
    }

    /// The tag on the wire. Reserved regions are zero.
    pub open spec fn bytes(self) -> Seq<u8> {
        u16_bytes(self.from_tag) + u16_bytes(self.to_tag) + seq![
            self.loop_animation_direction.spec_code(),
        ] + zeros(8) + rgb256_bytes(self.tag_color) + zeros(1) + string_bytes(self.tag_name)
    }
}

/// The bytes of one tag, as a value that a run can take.
pub open spec fn tag_bytes() -> spec_fn(TagView) -> Seq<u8> {
    |v: TagView| v.bytes()
}

/// The problem of one tag, as a value that a run can take.
pub open spec fn tag_problem() -> spec_fn(TagView) -> Option<Error> {
    |v: TagView| v.problem()
}

/// Whether one tag is known to read back, as a value that a run can take.
pub open spec fn tag_sound() -> spec_fn(TagView) -> bool {
    |v: TagView| v.problem() is None
}

impl FrameTagsChunkView {
    /// The count is the number of tags.
    pub open spec fn wf(self) -> bool {
        self.number_of_tags == self.tags.len()
    }

    /// What stands in the way of encoding, if anything: the problem of the
    /// first tag that has one.
    pub open spec fn problem(self) -> Option<Error> {
        run_problem(self.tags, tag_problem())
    }

    /// The chunk on the wire: the count as it is stored, then every tag.
    pub open spec fn bytes(self) -> Seq<u8> {
        u16_bytes(self.number_of_tags) + run_bytes(self.tags, tag_bytes())
    }
}

impl Tag {
    /// Decodes a tag from where the reader stands.
    pub fn from_read(read: &mut Reader) -> (r: Result<Tag, Error>)
        ensures
            reads(
                *old(read),
                *final(read),
                r,
                spec_read_tag(old(read).data(), old(read).pos() as int),
            ),
    {
        read.need(17)?;
        let from_tag: u16 = read.read_u16()?;
        let to_tag: u16 = read.read_u16()?;
        let loop_animation_direction: LoopAnimationDirection = LoopAnimationDirection::from_code(
            read.read_u8()?,
        )?;
        read.skip(8)?;
        let r: u8 = read.read_u8()?;
        let g: u8 = read.read_u8()?;
        let b: u8 = read.read_u8()?;
        read.skip(1)?;
        let tag_name: String = read_string(read)?;
        Ok(Tag { from_tag, to_tag, loop_animation_direction, tag_color: RGB256 { r, g, b }, tag_name })
    }

    /// Encodes the tag, or writes nothing where it cannot be encoded.
    pub fn write(&self, wtr: &mut Vec<u8>) -> (r: Result<(), Error>)
        ensures
            writes(old(wtr)@, final(wtr)@, r, self@.problem(), self@.bytes()),
    {
        check_string(self.tag_name.as_str())?;
        write_u16(wtr, self.from_tag);
        write_u16(wtr, self.to_tag);
        write_u8(wtr, self.loop_animation_direction.code());
        write_zeros(wtr, 8);
        write_u8(wtr, self.tag_color.r);
        write_u8(wtr, self.tag_color.g);
        write_u8(wtr, self.tag_color.b);
        write_zeros(wtr, 1);
        write_string(wtr, self.tag_name.as_str())
    }
}

impl FrameTagsChunk {
    /// Decodes a frame tags chunk from where the reader stands.
    #[verifier::loop_isolation(false)]
    pub fn from_read(read: &mut Reader) -> (r: Result<FrameTagsChunk, Error>)
        ensures
            reads(
                *old(read),
                *final(read),
                r,
                spec_read_frame_tags(old(read).data(), old(read).pos() as int),
            ),
    {
        let number_of_tags: u16 = read.read_u16()?;
        let ghost s = read.data();
        let ghost p0 = read.pos() as int;
        let mut tags: Vec<Tag> = Vec::new();
        let mut i: u16 = 0;
        while i < number_of_tags
            invariant
                i <= number_of_tags,
                read.data() == s,
                after(
                    seq_view(tags@),
                    spec_read_run(s, read.pos() as int, (number_of_tags - i) as nat, tag_reader()),
                ) == spec_read_run(s, p0, number_of_tags as nat, tag_reader()),
            decreases number_of_tags - i,
        {
            proof {
                lemma_read_run_step(
                    s,
                    read.pos() as int,
                    (number_of_tags - i) as nat,
                    tag_reader(),
                    seq_view(tags@),
                );
            }
            let ghost before = seq_view(tags@);
            let tag: Tag = Tag::from_read(read)?;
            tags.push(tag);
            assert(seq_view(tags@) =~= before.push(tag@));
            i = i + 1;
        }
        proof {
            lemma_read_run_done(s, read.pos() as int, tag_reader(), seq_view(tags@));
        }
        Ok(FrameTagsChunk { number_of_tags, tags })
    }

    /// Tells whether the chunk can be encoded, without encoding it.
    pub fn check(&self) -> (r: Result<(), Error>)
        ensures
            match self@.problem() {
                None => r is Ok,
                Some(e) => r == Err::<(), Error>(e),
            },
    {
        let ghost views = seq_view(self.tags@);
        let mut i: usize = 0;
        while i < self.tags.len()
            invariant
                i <= self.tags.len(),
                views == seq_view(self.tags@),
                run_problem(views.take(i as int), tag_problem()) is None,
            decreases self.tags.len() - i,
        {
            proof {
                lemma_run_problem_push(views.take(i as int), views[i as int], tag_problem());
                assert(views.take(i as int).push(views[i as int]) =~= views.take(i + 1));
                if views[i as int].problem() is Some {
                    lemma_run_problem_prefix(views, i + 1, tag_problem());
                }
            }
            check_string(self.tags[i].tag_name.as_str())?;
            i = i + 1;
        }
        assert(views.take(i as int) =~= views);
        Ok(())
    }

    /// Encodes the chunk, or writes nothing where a tag cannot be encoded.
    pub fn write(&self, wtr: &mut Vec<u8>) -> (r: Result<(), Error>)
        ensures
            writes(old(wtr)@, final(wtr)@, r, self@.problem(), self@.bytes()),
    {
        self.check()?;
        write_u16(wtr, self.number_of_tags);
        let ghost start = wtr@;
        let ghost views = seq_view(self.tags@);
        let mut i: usize = 0;
        while i < self.tags.len()
            invariant
                i <= self.tags.len(),
                views == seq_view(self.tags@),
                run_problem(views, tag_problem()) is None,
                wtr@ == start + run_bytes(views.take(i as int), tag_bytes()),
            decreases self.tags.len() - i,
        {
            proof {
                lemma_run_bytes_push(views.take(i as int), views[i as int], tag_bytes());
                assert(views.take(i as int).push(views[i as int]) =~= views.take(i + 1));
                lemma_run_problem_none(views, tag_problem(), i as int);
            }
            let _ = self.tags[i].write(wtr);
            i = i + 1;
        }
        assert(views.take(i as int) =~= views);
        Ok(())
    }
}

/// A tag that was written reads back as it was.
pub proof fn lemma_tag_roundtrip(v: TagView, s: Seq<u8>, p: int)
    requires
        v.problem() is None,
        placed(s, p, v.bytes()),
    ensures
        spec_read_tag(s, p) == Ok::<(TagView, int), Error>((v, p + v.bytes().len())),
{
    broadcast use group_placed;

    v.loop_animation_direction.lemma_code_roundtrip();
    let c = rgb256_bytes(v.tag_color);
    assert(placed(s, p + 13, c));
    lemma_placed_index(s, p + 13, c, 0);
    lemma_placed_index(s, p + 13, c, 1);
    lemma_placed_index(s, p + 13, c, 2);
    lemma_string_roundtrip(v.tag_name, s, p + 17);
}

/// A frame tags chunk that was written reads back as it was.
pub proof fn lemma_frame_tags_roundtrip(v: FrameTagsChunkView, s: Seq<u8>, p: int)
    requires
        v.wf(),
        v.problem() is None,
        placed(s, p, v.bytes()),
    ensures
        spec_read_frame_tags(s, p) == Ok::<(FrameTagsChunkView, int), Error>(
            (v, p + v.bytes().len()),
        ),
{
    broadcast use group_placed;

    assert forall|w: TagView, q: int|
        tag_sound()(w) && #[trigger] placed(s, q, tag_bytes()(w)) implies tag_reader()(s, q) == Ok::<
            (TagView, int),
            Error,
        >((w, q + tag_bytes()(w).len())) by {
        lemma_tag_roundtrip(w, s, q);
    }
    assert forall|i: int| 0 <= i < v.tags.len() implies #[trigger] tag_sound()(v.tags[i]) by {
        lemma_run_problem_none(v.tags, tag_problem(), i);
    }
    lemma_run_roundtrip(v.tags, s, p + 2, tag_reader(), tag_bytes(), tag_sound());
}

/// What holds of a tag that was decoded: it can be encoded, and the decoder
/// stopped within the input.
pub proof fn lemma_decoded_tag(s: Seq<u8>, p: int)
    requires
        spec_read_tag(s, p) is Ok,
    ensures
        spec_read_tag(s, p)->Ok_0.0.problem() is None,
        p <= spec_read_tag(s, p)->Ok_0.1 <= s.len(),
{
    lemma_decoded_string(s, p + 17);
}

/// What holds of a frame tags chunk that was decoded: it is well formed and
/// can be encoded, and the decoder stopped within the input.
pub proof fn lemma_decoded_frame_tags(s: Seq<u8>, p: int)
    requires
        spec_read_frame_tags(s, p) is Ok,
    ensures
        spec_read_frame_tags(s, p)->Ok_0.0.wf(),
        spec_read_frame_tags(s, p)->Ok_0.0.problem() is None,
        p <= spec_read_frame_tags(s, p)->Ok_0.1 <= s.len(),
{
    assert forall|q: int|
        0 <= q <= s.len() && (#[trigger] tag_reader()(s, q)) is Ok implies tag_sound()(
        tag_reader()(s, q)->Ok_0.0,
    ) && q <= tag_reader()(s, q)->Ok_0.1 <= s.len() by {
        lemma_decoded_tag(s, q);
    }
    lemma_read_run_holds(s, p + 2, u16_at(s, p) as nat, tag_reader(), tag_sound());
    let tags = spec_read_frame_tags(s, p)->Ok_0.0.tags;
    assert forall|i: int| 0 <= i < tags.len() implies tag_problem()(#[trigger] tags[i]) is None by {
        assert(tag_sound()(tags[i]));
    }
    lemma_run_problem_all_none(tags, tag_problem());
}

/// A tag that decodes from `s` decodes to the same from every input that
/// begins with `s`.
pub proof fn lemma_tag_extends(s: Seq<u8>, t: Seq<u8>, p: int)
    requires
        begins(s, t),
        spec_read_tag(s, p) is Ok,
    ensures
        spec_read_tag(t, p) == spec_read_tag(s, p),
{
    lemma_string_extends(s, t, p + 17);
}

/// A frame tags chunk that decodes from `s` decodes to the same from every
/// input that begins with `s`.
pub proof fn lemma_frame_tags_extends(s: Seq<u8>, t: Seq<u8>, p: int)
    requires
        begins(s, t),
        spec_read_frame_tags(s, p) is Ok,
    ensures
        spec_read_frame_tags(t, p) == spec_read_frame_tags(s, p),
{
    assert(s[p] == t[p] && s[p + 1] == t[p + 1]);
    assert forall|q: int| (#[trigger] tag_reader()(s, q)) is Ok implies tag_reader()(t, q)
        == tag_reader()(s, q) by {
        lemma_tag_extends(s, t, q);
    }
    lemma_read_run_extends(s, t, p + 2, u16_at(s, p) as nat, tag_reader());
}

} // verus!
