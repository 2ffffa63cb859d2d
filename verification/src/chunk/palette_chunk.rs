//! The palette chunk: a declared palette size, the range of indices to
//! change, and the entries.
use crate::color::{rgba_at, rgba_bytes, RGBA256};
use crate::error::{Error, Gated};
use crate::helpers::{
    check_string, lemma_decoded_string, lemma_string_extends, lemma_string_roundtrip, read_string,
    spec_read_string, string_bytes, string_problem, write_string,
};
use crate::list::{
    after, lemma_read_run_done, lemma_read_run_extends, lemma_read_run_holds, lemma_read_run_step,
    lemma_run_bytes_push, lemma_run_problem_all_none, lemma_run_problem_none,
    lemma_run_problem_prefix, lemma_run_problem_push, lemma_run_roundtrip, run_bytes, run_problem,
    seq_view, spec_read_run,
};
use crate::reader::{avail, reads, Reader};
use crate::wire::{
    begins, group_placed, lemma_placed_index, placed, u16_at, u16_bytes, u32_at, u32_bytes, zeros,
};
use crate::writer::{write_u16, write_u32, write_u8, write_zeros, writes};
use vstd::prelude::*;

verus! {

broadcast use Reader::lemma_in_bounds;

/// The flag bits of a palette entry.
#[derive(Debug, Clone, Copy, PartialEq, Eq, Structural)]
pub struct Flags {
    pub bits: u16,
}

impl Flags {
    /// A name follows the colour.
    pub const HAS_NAME: u16 = 1;

    /// Every bit that has a meaning.
    pub const ALL: u16 = 1;

    /// Whether no bit without a meaning is set.
    pub open spec fn known(self) -> bool {
        self.bits & Flags::ALL == self.bits
    }

    /// Whether every bit of `mask` is set.
    pub open spec fn spec_contains(self, mask: u16) -> bool {
        self.bits & mask == mask
    }

    /// Keeps the bits that have a meaning and drops the others.
    pub fn from_bits_truncate(bits: u16) -> (f: Flags)
        ensures
            f.bits == bits & Flags::ALL,
    {
        Flags { bits: bits & Flags::ALL }
    }

    /// Whether every bit of `mask` is set.
    #[verifier::when_used_as_spec(spec_contains)]
    pub fn contains(self, mask: u16) -> (b: bool)
        ensures
            b == self.spec_contains(mask),
    {
        self.bits & mask == mask
    }
}

/// A colour of the palette, with a name where its flags announce one.
#[derive(Debug, Clone, PartialEq, Eq)]
pub struct PaletteEntry {
    pub flags: Flags,
    pub color: RGBA256,
    pub color_name: Option<String>,
}

/// The value of a [`PaletteEntry`] as mathematics: sequences in place of vectors
/// and strings.
pub ghost struct PaletteEntryView {
    pub flags: Flags,
    pub color: RGBA256,
    pub color_name: Option<Seq<char>>,
}

impl View for PaletteEntry {
    type V = PaletteEntryView;

    open spec fn view(&self) -> PaletteEntryView {
        PaletteEntryView {
            flags: self.flags,
            color: self.color,
            color_name: match self.color_name {
                Some(name) => Some(name@),
                None => None,
            },
        }
    }
}

/// A change to the palette. `new_palette_size` is the size of the whole
/// palette after the change. The entries are the colours of the indices
/// from `first_color_index_to_change` to `last_color_index_to_change`, both
/// counted in, so that there is one entry more than the two indices lie
/// apart. All three fields are written as they are stored.
#[derive(Debug, Clone, PartialEq, Eq)]
pub struct PaletteChunk {
    pub new_palette_size: u32,
    pub first_color_index_to_change: u32,
    pub last_color_index_to_change: u32,
    pub palette_entries: Vec<PaletteEntry>,
}

/// The value of a [`PaletteChunk`] as mathematics: sequences in place of vectors
/// and strings.
pub ghost struct PaletteChunkView {
    pub new_palette_size: u32,
    pub first_color_index_to_change: u32,
    pub last_color_index_to_change: u32,
    pub palette_entries: Seq<PaletteEntryView>,
}

impl View for PaletteChunk {
    type V = PaletteChunkView;

    open spec fn view(&self) -> PaletteChunkView {
        PaletteChunkView {
            new_palette_size: self.new_palette_size,
            first_color_index_to_change: self.first_color_index_to_change,
            last_color_index_to_change: self.last_color_index_to_change,
            palette_entries: seq_view(self.palette_entries@),
        }
    }
}

/// The palette entry that starts at position `p`: flags and colour, then a
/// name where the flags announce one.
pub open spec fn spec_read_entry(s: Seq<u8>, p: int) -> Result<(PaletteEntryView, int), Error> {
    if !avail(s, p, 6) {
        Err(Error::UnexpectedEof)
    } else {
        let flags = Flags { bits: u16_at(s, p) & Flags::ALL };
        if flags.spec_contains(Flags::HAS_NAME) {
            match spec_read_string(s, p + 6) {
                Err(e) => Err(e),
                Ok((name, q)) => Ok(
                    (
                        PaletteEntryView { flags, color: rgba_at(s, p + 2), color_name: Some(name) },
                        q,
                    ),
                ),
            }
        } else {
            Ok((PaletteEntryView { flags, color: rgba_at(s, p + 2), color_name: None }, p + 6))
        }
    }
}

/// The decoder of one palette entry, as a value that a run can take.
pub open spec fn entry_reader() -> spec_fn(Seq<u8>, int) -> Result<(PaletteEntryView, int), Error> {
    |s: Seq<u8>, p: int| spec_read_entry(s, p)
}

/// The number of entries that stand for the indices from `first` to
/// `last`, both counted in.
pub open spec fn entry_count(first: u32, last: u32) -> int {
    last - first + 1
}

/// The chunk that starts at position `p`: 20 bytes of fixed fields, of
/// which the last eight are reserved, then one entry for each index of the
/// range. A range whose first index lies behind its last is refused.
pub open spec fn spec_read_palette(s: Seq<u8>, p: int) -> Result<(PaletteChunkView, int), Error> {
    if !avail(s, p, 20) {
        Err(Error::UnexpectedEof)
    } else if u32_at(s, p + 4) > u32_at(s, p + 8) {
        Err(Error::InvalidRange)
    } else {
        match spec_read_run(
            s,
            p + 20,
            entry_count(u32_at(s, p + 4), u32_at(s, p + 8)) as nat,
            entry_reader(),
        ) {
            Err(e) => Err(e),
            Ok((palette_entries, q)) => Ok(
                (
                    PaletteChunkView {
                        new_palette_size: u32_at(s, p),
                        first_color_index_to_change: u32_at(s, p + 4),
                        last_color_index_to_change: u32_at(s, p + 8),
                        palette_entries,
                    },
                    q,
                ),
            ),
        }
    }
}

impl PaletteEntryView {
    /// The flags hold no bit without a meaning, and the name is there
    /// exactly if its flag is set.
    pub open spec fn wf(self) -> bool {
        &&& self.flags.known()
        &&& self.flags.spec_contains(Flags::HAS_NAME) <==> self.color_name is Some
    }

    /// What stands in the way of encoding, if anything: the name flag
    /// without a name, or a name too long for its length prefix.
    pub open spec fn problem(self) -> Option<Error> {
        match self.color_name {
            None => if self.flags.spec_contains(Flags::HAS_NAME) {
                Some(Error::FlagDataMismatch(Gated::ColorName))
            } else {
                None
            },
            Some(name) => string_problem(name),
        }
    }

    /// The entry on the wire. A name that is held is written.
    pub open spec fn bytes(self) -> Seq<u8> {
        u16_bytes(self.flags.bits) + rgba_bytes(self.color) + (match self.color_name {
            None => Seq::empty(),
            Some(name) => string_bytes(name),
        })
    }
}

/// The bytes of one palette entry, as a value that a run can take.
pub open spec fn entry_bytes() -> spec_fn(PaletteEntryView) -> Seq<u8> {
    |v: PaletteEntryView| v.bytes()
}

/// The problem of one palette entry, as a value that a run can take.
pub open spec fn entry_problem() -> spec_fn(PaletteEntryView) -> Option<Error> {
    |v: PaletteEntryView| v.problem()
}

/// Whether one palette entry is known to read back, as a value that a run can take.
pub open spec fn entry_sound() -> spec_fn(PaletteEntryView) -> bool {
    |v: PaletteEntryView| v.wf() && v.problem() is None
}

impl PaletteChunkView {
    /// The first index of the range does not lie behind the last, there is
    /// one entry for each index of the range, and every entry is well
    /// formed.
    pub open spec fn wf(self) -> bool {
        &&& self.first_color_index_to_change <= self.last_color_index_to_change
        &&& self.palette_entries.len() == entry_count(
            self.first_color_index_to_change,
            self.last_color_index_to_change,
        )
        &&& forall|i: int|
            0 <= i < self.palette_entries.len() ==> (#[trigger] self.palette_entries[i]).wf()
    }

    /// What stands in the way of encoding, if anything: the problem of the
    /// first entry that has one.
    pub open spec fn problem(self) -> Option<Error> {
        run_problem(self.palette_entries, entry_problem())
    }

    /// The chunk on the wire: the fixed fields as they are stored, the
    /// reserved region zero, then every entry that the chunk holds.
    pub open spec fn bytes(self) -> Seq<u8> {
        u32_bytes(self.new_palette_size) + u32_bytes(self.first_color_index_to_change) + u32_bytes(
            self.last_color_index_to_change,
        ) + zeros(8) + run_bytes(self.palette_entries, entry_bytes())
    }
}

impl PaletteEntry {
    /// Decodes a palette entry from where the reader stands.
    pub fn from_read(read: &mut Reader) -> (r: Result<PaletteEntry, Error>)
        ensures
            reads(
                *old(read),
                *final(read),
                r,
                spec_read_entry(old(read).data(), old(read).pos() as int),
            ),
    {
        read.need(6)?;
        let flags: Flags = Flags::from_bits_truncate(read.read_u16()?);
        let r: u8 = read.read_u8()?;
        let g: u8 = read.read_u8()?;
        let b: u8 = read.read_u8()?;
        let a: u8 = read.read_u8()?;
        let color_name: Option<String> = if flags.contains(Flags::HAS_NAME) {
            Some(read_string(read)?)
        } else {
            None
        };
        Ok(PaletteEntry { flags, color: RGBA256 { r, g, b, a }, color_name })
    }

    /// Tells whether the entry can be encoded, without encoding it.
    pub fn check(&self) -> (r: Result<(), Error>)
        ensures
            match self@.problem() {
                None => r is Ok,
                Some(e) => r == Err::<(), Error>(e),
            },
    {
        match &self.color_name {
            None => {
                if self.flags.contains(Flags::HAS_NAME) {
                    Err(Error::FlagDataMismatch(Gated::ColorName))
                } else {
                    Ok(())
                }
            },
            Some(name) => check_string(name.as_str()),
        }
    }

    /// Encodes the entry, or writes nothing where it cannot be encoded.
    pub fn write(&self, wtr: &mut Vec<u8>) -> (r: Result<(), Error>)
        ensures
            writes(old(wtr)@, final(wtr)@, r, self@.problem(), self@.bytes()),
    {
        self.check()?;
        write_u16(wtr, self.flags.bits);
        write_u8(wtr, self.color.r);
        write_u8(wtr, self.color.g);
        write_u8(wtr, self.color.b);
        write_u8(wtr, self.color.a);
        match &self.color_name {
            None => {},
            Some(name) => {
                let _ = write_string(wtr, name.as_str());
            },
        }
        Ok(())
    }
}

impl PaletteChunk {
    /// Decodes a palette chunk from where the reader stands: the fixed
    /// fields, then one entry for each index from the first to the last of
    /// the range. A range whose first index lies behind its last is
    /// refused, whatever follows the fixed fields.
    #[verifier::loop_isolation(false)]
    pub fn from_read(read: &mut Reader) -> (r: Result<PaletteChunk, Error>)
        ensures
            reads(
                *old(read),
                *final(read),
                r,
                spec_read_palette(old(read).data(), old(read).pos() as int),
            ),
    {
        read.need(20)?;
        let new_palette_size: u32 = read.read_u32()?;
        let first_color_index_to_change: u32 = read.read_u32()?;
        let last_color_index_to_change: u32 = read.read_u32()?;
        read.skip(8)?;
        if first_color_index_to_change > last_color_index_to_change {
            return Err(Error::InvalidRange);
        }
        let count: u64 = (last_color_index_to_change - first_color_index_to_change) as u64 + 1;
        let ghost s = read.data();
        let ghost p0 = read.pos() as int;
        let mut palette_entries: Vec<PaletteEntry> = Vec::new();
        let mut i: u64 = 0;
        while i < count
            invariant
                i <= count,
                read.data() == s,
                after(
                    seq_view(palette_entries@),
                    spec_read_run(s, read.pos() as int, (count - i) as nat, entry_reader()),
                ) == spec_read_run(s, p0, count as nat, entry_reader()),
            decreases count - i,
        {
            proof {
                lemma_read_run_step(
                    s,
                    read.pos() as int,
                    (count - i) as nat,
                    entry_reader(),
                    seq_view(palette_entries@),
                );
            }
            let ghost before = seq_view(palette_entries@);
            let entry: PaletteEntry = PaletteEntry::from_read(read)?;
            palette_entries.push(entry);
            assert(seq_view(palette_entries@) =~= before.push(entry@));
            i = i + 1;
        }
        proof {
            lemma_read_run_done(s, read.pos() as int, entry_reader(), seq_view(palette_entries@));
        }
        Ok(
            PaletteChunk {
                new_palette_size,
                first_color_index_to_change,
                last_color_index_to_change,
                palette_entries,
            },
        )
    }

    /// Tells whether the chunk can be encoded, without encoding it.
    pub fn check(&self) -> (r: Result<(), Error>)
        ensures
            match self@.problem() {
                None => r is Ok,
                Some(e) => r == Err::<(), Error>(e),
            },
    {
        let ghost views = seq_view(self.palette_entries@);
        let mut i: usize = 0;
        while i < self.palette_entries.len()
            invariant
                i <= self.palette_entries.len(),
                views == seq_view(self.palette_entries@),
                run_problem(views.take(i as int), entry_problem()) is None,
            decreases self.palette_entries.len() - i,
        {
            proof {
                lemma_run_problem_push(views.take(i as int), views[i as int], entry_problem());
                assert(views.take(i as int).push(views[i as int]) =~= views.take(i + 1));
                if views[i as int].problem() is Some {
                    lemma_run_problem_prefix(views, i + 1, entry_problem());
                }
            }
            self.palette_entries[i].check()?;
            i = i + 1;
        }
        assert(views.take(i as int) =~= views);
        Ok(())
    }

    /// Encodes the chunk, or writes nothing where an entry cannot be
    /// encoded.
    pub fn write(&self, wtr: &mut Vec<u8>) -> (r: Result<(), Error>)
        ensures
            writes(old(wtr)@, final(wtr)@, r, self@.problem(), self@.bytes()),
    {
        self.check()?;
        write_u32(wtr, self.new_palette_size);
        write_u32(wtr, self.first_color_index_to_change);
        write_u32(wtr, self.last_color_index_to_change);
        write_zeros(wtr, 8);
        let ghost start = wtr@;
        let ghost views = seq_view(self.palette_entries@);
        let mut i: usize = 0;
        while i < self.palette_entries.len()
            invariant
                i <= self.palette_entries.len(),
                views == seq_view(self.palette_entries@),
                run_problem(views, entry_problem()) is None,
                wtr@ == start + run_bytes(views.take(i as int), entry_bytes()),
            decreases self.palette_entries.len() - i,
        {
            proof {
                lemma_run_bytes_push(views.take(i as int), views[i as int], entry_bytes());
                assert(views.take(i as int).push(views[i as int]) =~= views.take(i + 1));
                lemma_run_problem_none(views, entry_problem(), i as int);
            }
            let _ = self.palette_entries[i].write(wtr);
            i = i + 1;
        }
        assert(views.take(i as int) =~= views);
        Ok(())
    }
}

/// A palette entry that was written reads back as it was.
pub proof fn lemma_entry_roundtrip(v: PaletteEntryView, s: Seq<u8>, p: int)
    requires
        v.wf(),
        v.problem() is None,
        placed(s, p, v.bytes()),
    ensures
        spec_read_entry(s, p) == Ok::<(PaletteEntryView, int), Error>((v, p + v.bytes().len())),
{
    broadcast use group_placed;

    let c = rgba_bytes(v.color);
    assert(placed(s, p, u16_bytes(v.flags.bits)));
    assert(placed(s, p + 2, c));
    lemma_placed_index(s, p + 2, c, 0);
    lemma_placed_index(s, p + 2, c, 1);
    lemma_placed_index(s, p + 2, c, 2);
    lemma_placed_index(s, p + 2, c, 3);
    if let Some(name) = v.color_name {
        lemma_string_roundtrip(name, s, p + 6);
    }
}

/// A palette chunk that was written reads back as it was.
pub proof fn lemma_palette_roundtrip(v: PaletteChunkView, s: Seq<u8>, p: int)
    requires
        v.wf(),
        v.problem() is None,
        placed(s, p, v.bytes()),
    ensures
        spec_read_palette(s, p) == Ok::<(PaletteChunkView, int), Error>((v, p + v.bytes().len())),
{
    broadcast use group_placed;

    assert(placed(s, p, u32_bytes(v.new_palette_size)));
    assert(placed(s, p + 4, u32_bytes(v.first_color_index_to_change)));
    assert(placed(s, p + 8, u32_bytes(v.last_color_index_to_change)));
    assert forall|w: PaletteEntryView, q: int|
        entry_sound()(w) && #[trigger] placed(s, q, entry_bytes()(w)) implies entry_reader()(s, q)
        == Ok::<(PaletteEntryView, int), Error>((w, q + entry_bytes()(w).len())) by {
        lemma_entry_roundtrip(w, s, q);
    }
    assert forall|i: int| 0 <= i < v.palette_entries.len() implies #[trigger] entry_sound()(
        v.palette_entries[i],
    ) by {
        assert(v.palette_entries[i].wf());
        lemma_run_problem_none(v.palette_entries, entry_problem(), i);
    }
    lemma_run_roundtrip(
        v.palette_entries,
        s,
        p + 20,
        entry_reader(),
        entry_bytes(),
        entry_sound(),
    );
}

/// What holds of a palette entry that was decoded: it is well formed and
/// can be encoded, and the decoder stopped within the input.
pub proof fn lemma_decoded_entry(s: Seq<u8>, p: int)
    requires
        spec_read_entry(s, p) is Ok,
    ensures
        spec_read_entry(s, p)->Ok_0.0.wf(),
        spec_read_entry(s, p)->Ok_0.0.problem() is None,
        p <= spec_read_entry(s, p)->Ok_0.1 <= s.len(),
{
    let raw = u16_at(s, p);
    assert((raw & 1) & 1 == raw & 1) by (bit_vector);
    let flags = Flags { bits: raw & Flags::ALL };
    if flags.spec_contains(Flags::HAS_NAME) {
        lemma_decoded_string(s, p + 6);
    }
}

/// What holds of a palette chunk that was decoded: it is well formed and
/// can be encoded, and the decoder stopped within the input.
pub proof fn lemma_decoded_palette(s: Seq<u8>, p: int)
    requires
        spec_read_palette(s, p) is Ok,
    ensures
        spec_read_palette(s, p)->Ok_0.0.wf(),
        spec_read_palette(s, p)->Ok_0.0.problem() is None,
        p <= spec_read_palette(s, p)->Ok_0.1 <= s.len(),
{
    assert forall|q: int|
        0 <= q <= s.len() && (#[trigger] entry_reader()(s, q)) is Ok implies entry_sound()(
        entry_reader()(s, q)->Ok_0.0,
    ) && q <= entry_reader()(s, q)->Ok_0.1 <= s.len() by {
        lemma_decoded_entry(s, q);
    }
    lemma_read_run_holds(
        s,
        p + 20,
        entry_count(u32_at(s, p + 4), u32_at(s, p + 8)) as nat,
        entry_reader(),
        entry_sound(),
    );
    let entries = spec_read_palette(s, p)->Ok_0.0.palette_entries;
    assert forall|i: int| 0 <= i < entries.len() implies entry_problem()(
        #[trigger] entries[i],
    ) is None && entries[i].wf() by {
        assert(entry_sound()(entries[i]));
    }
    lemma_run_problem_all_none(entries, entry_problem());
}

/// A palette entry that decodes from `s` decodes to the same from every
/// input that begins with `s`.
pub proof fn lemma_entry_extends(s: Seq<u8>, t: Seq<u8>, p: int)
    requires
        begins(s, t),
        spec_read_entry(s, p) is Ok,
    ensures
        spec_read_entry(t, p) == spec_read_entry(s, p),
{
    let flags = Flags { bits: u16_at(s, p) & Flags::ALL };
    if flags.spec_contains(Flags::HAS_NAME) {
        lemma_string_extends(s, t, p + 6);
    }
}

/// A palette chunk that decodes from `s` decodes to the same from every
/// input that begins with `s`.
pub proof fn lemma_palette_extends(s: Seq<u8>, t: Seq<u8>, p: int)
    requires
        begins(s, t),
        spec_read_palette(s, p) is Ok,
    ensures
        spec_read_palette(t, p) == spec_read_palette(s, p),
{
    assert forall|q: int| (#[trigger] entry_reader()(s, q)) is Ok implies entry_reader()(t, q)
        == entry_reader()(s, q) by {
        lemma_entry_extends(s, t, q);
    }
    lemma_read_run_extends(
        s,
        t,
        p + 20,
        entry_count(u32_at(s, p + 4), u32_at(s, p + 8)) as nat,
        entry_reader(),
    );
}

} // verus!
