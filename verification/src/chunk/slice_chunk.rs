//! The slice chunk: a named region of the canvas, with one key for each
//! frame from which the region changes.
use crate::error::{Error, Gated};
use crate::helpers::{
    check_string, lemma_decoded_string, lemma_string_extends, lemma_string_roundtrip, read_string,
    spec_read_string, string_bytes, string_problem, write_string,
};
use crate::list::{
    after, lemma_read_run_done, lemma_read_run_extends, lemma_read_run_holds, lemma_read_run_step,
    lemma_run_bytes_push, lemma_run_problem_all_none, lemma_run_problem_none,
    lemma_run_problem_prefix, lemma_run_problem_push, lemma_run_roundtrip, run_bytes, run_problem,
    spec_read_run,
};
use crate::reader::{avail, reads, Reader};
use crate::wire::{begins, group_placed, i32_at, i32_bytes, placed, u32_at, u32_bytes, zeros};
use crate::writer::{write_i32, write_u32, write_zeros, writes};
use vstd::prelude::*;

verus! {

broadcast use Reader::lemma_in_bounds;

/// The flag bits of a slice. They say which optional parts every key of the
/// slice holds.
#[derive(Debug, Clone, Copy, PartialEq, Eq, Structural)]
pub struct Flags {
    pub bits: u32,
}

impl Flags {
    /// Every key holds the centre rectangle of a nine-patch.
    pub const IS_NINE_PATCHES_SLICE: u32 = 1;

    /// Every key holds a pivot.
    pub const HAS_PIVOT_INFORMATION: u32 = 2;

    /// Every bit that has a meaning.
    pub const ALL: u32 = 3;

    /// Whether no bit without a meaning is set.
    pub open spec fn known(self) -> bool {
        self.bits & Flags::ALL == self.bits
    }

    /// Whether every bit of `mask` is set.
    pub open spec fn spec_contains(self, mask: u32) -> bool {
        self.bits & mask == mask
    }

    /// Keeps the bits that have a meaning and drops the others.
    pub fn from_bits_truncate(bits: u32) -> (f: Flags)
        ensures
            f.bits == bits & Flags::ALL,
    {
        Flags { bits: bits & Flags::ALL }
    }

    /// Whether every bit of `mask` is set.
    #[verifier::when_used_as_spec(spec_contains)]
    pub fn contains(self, mask: u32) -> (b: bool)
        ensures
            b == self.spec_contains(mask),
    {
        self.bits & mask == mask
    }
}

/// The centre rectangle of a nine-patch slice, relative to the slice.
#[derive(Debug, Clone, Copy, PartialEq, Eq, Structural)]
pub struct NinePatchesInfo {
    pub x_position: i32,
    pub y_position: i32,
    pub width: u32,
    pub height: u32,
}

/// The pivot of a slice, relative to its origin.
#[derive(Debug, Clone, Copy, PartialEq, Eq, Structural)]
pub struct PivotInfo {
    pub x_position: i32,
    pub y_position: i32,
}

/// The rectangle of a slice from one frame on, with the parts that the
/// flags of the slice announce.
#[derive(Debug, Clone, Copy, PartialEq, Eq, Structural)]
pub struct SliceKey {
    pub frame_number: u32,
    pub x_origin: i32,
    pub y_origin: i32,
    pub width: u32,
    pub height: u32,
    pub nine_patches_info: Option<NinePatchesInfo>,
    pub pivot_info: Option<PivotInfo>,
}

impl View for SliceKey {
    type V = SliceKey;

    open spec fn view(&self) -> SliceKey {
        *self
    }
}

/// A slice. `number_of_slice_keys` is written as it is stored.
#[derive(Debug, Clone, PartialEq, Eq)]
pub struct SliceChunk {
    pub number_of_slice_keys: u32,
    pub flags: Flags,
    pub name: String,
    pub keys: Vec<SliceKey>,
}

/// The value of a [`SliceChunk`] as mathematics: sequences in place of vectors
/// and strings.
pub ghost struct SliceChunkView {
    pub number_of_slice_keys: u32,
    pub flags: Flags,
    pub name: Seq<char>,
    pub keys: Seq<SliceKey>,
}

impl View for SliceChunk {
    type V = SliceChunkView;

    open spec fn view(&self) -> SliceChunkView {
        SliceChunkView {
            number_of_slice_keys: self.number_of_slice_keys,
            flags: self.flags,
            name: self.name@,
            keys: self.keys@,
        }
    }
}

/// The number of bytes that the nine-patch part of a key takes.
pub open spec fn nine_size(flags: Flags) -> int {
    if flags.spec_contains(Flags::IS_NINE_PATCHES_SLICE) {
        16
    } else {
        0
    }
}

/// The number of bytes that the pivot part of a key takes.
pub open spec fn pivot_size(flags: Flags) -> int {
    if flags.spec_contains(Flags::HAS_PIVOT_INFORMATION) {
        8
    } else {
        0
    }
}

/// The key that starts at position `p` in a slice with these flags: 20
/// bytes of fixed fields, then the parts that the flags announce.
pub open spec fn spec_read_key(s: Seq<u8>, p: int, flags: Flags) -> Result<(SliceKey, int), Error> {
    if !avail(s, p, 20 + nine_size(flags) + pivot_size(flags)) {
        Err(Error::UnexpectedEof)
    } else {
        Ok(
            (
                SliceKey {
                    frame_number: u32_at(s, p),
                    x_origin: i32_at(s, p + 4),
                    y_origin: i32_at(s, p + 8),
                    width: u32_at(s, p + 12),
                    height: u32_at(s, p + 16),
                    nine_patches_info: if flags.spec_contains(Flags::IS_NINE_PATCHES_SLICE) {
                        Some(
                            NinePatchesInfo {
                                x_position: i32_at(s, p + 20),
                                y_position: i32_at(s, p + 24),
                                width: u32_at(s, p + 28),
                                height: u32_at(s, p + 32),
                            },
                        )
                    } else {
                        None
                    },
                    pivot_info: if flags.spec_contains(Flags::HAS_PIVOT_INFORMATION) {
                        Some(
                            PivotInfo {
                                x_position: i32_at(s, p + 20 + nine_size(flags)),
                                y_position: i32_at(s, p + 24 + nine_size(flags)),
                            },
                        )
                    } else {
                        None
                    },
                },
                p + 20 + nine_size(flags) + pivot_size(flags),
            ),
        )
    }
}

/// The decoder of one slice key, as a value that a run can take.
pub open spec fn key_reader(flags: Flags) -> spec_fn(Seq<u8>, int) -> Result<(SliceKey, int), Error> {
    |s: Seq<u8>, p: int| spec_read_key(s, p, flags)
}

/// The chunk that starts at position `p`: 12 bytes of fixed fields, of
/// which the last four are reserved, the name, then as many keys as the
/// count says.
pub open spec fn spec_read_slice(s: Seq<u8>, p: int) -> Result<(SliceChunkView, int), Error> {
    if !avail(s, p, 12) {
        Err(Error::UnexpectedEof)
    } else {
        let flags = Flags { bits: u32_at(s, p + 4) & Flags::ALL };
        match spec_read_string(s, p + 12) {
            Err(e) => Err(e),
            Ok((name, q)) => match spec_read_run(s, q, u32_at(s, p) as nat, key_reader(flags)) {
                Err(e) => Err(e),
                Ok((keys, end)) => Ok(
                    (SliceChunkView { number_of_slice_keys: u32_at(s, p), flags, name, keys }, end),
                ),
            },
        }
    }
}

/// Whether a key holds exactly the parts that the flags announce.
pub open spec fn key_wf(key: SliceKey, flags: Flags) -> bool {
    &&& flags.spec_contains(Flags::IS_NINE_PATCHES_SLICE) <==> key.nine_patches_info is Some
    &&& flags.spec_contains(Flags::HAS_PIVOT_INFORMATION) <==> key.pivot_info is Some
}

/// What stands in the way of encoding a key, if anything: a part that the
/// flags announce and the key does not hold. The nine-patch part is looked
/// at before the pivot.
pub open spec fn key_problem(key: SliceKey, flags: Flags) -> Option<Error> {
    if flags.spec_contains(Flags::IS_NINE_PATCHES_SLICE) && key.nine_patches_info is None {
        Some(Error::FlagDataMismatch(Gated::NinePatches))
    } else if flags.spec_contains(Flags::HAS_PIVOT_INFORMATION) && key.pivot_info is None {
        Some(Error::FlagDataMismatch(Gated::Pivot))
    } else {
        None
    }
}

/// A key on the wire. A part whose flag is clear is not written.
pub open spec fn key_bytes(key: SliceKey, flags: Flags) -> Seq<u8> {
    u32_bytes(key.frame_number) + i32_bytes(key.x_origin) + i32_bytes(key.y_origin) + u32_bytes(
        key.width,
    ) + u32_bytes(key.height) + (if flags.spec_contains(Flags::IS_NINE_PATCHES_SLICE) {
        i32_bytes(key.nine_patches_info->Some_0.x_position) + i32_bytes(
            key.nine_patches_info->Some_0.y_position,
        ) + u32_bytes(key.nine_patches_info->Some_0.width) + u32_bytes(
            key.nine_patches_info->Some_0.height,
        )
    } else {
        Seq::empty()
    }) + (if flags.spec_contains(Flags::HAS_PIVOT_INFORMATION) {
        i32_bytes(key.pivot_info->Some_0.x_position) + i32_bytes(key.pivot_info->Some_0.y_position)
    } else {
        Seq::empty()
    })
}

/// The bytes of one slice key, as a value that a run can take.
pub open spec fn key_bytes_of(flags: Flags) -> spec_fn(SliceKey) -> Seq<u8> {
    |key: SliceKey| key_bytes(key, flags)
}

/// The problem of one slice key, as a value that a run can take.
pub open spec fn key_problem_of(flags: Flags) -> spec_fn(SliceKey) -> Option<Error> {
    |key: SliceKey| key_problem(key, flags)
}

/// Whether one slice key is known to read back, as a value that a run can take.
pub open spec fn key_sound(flags: Flags) -> spec_fn(SliceKey) -> bool {
    |key: SliceKey| key_wf(key, flags)
}

impl SliceChunkView {
    /// The flags hold no bit without a meaning, the count is the number of
    /// keys, and every key holds exactly the parts that the flags announce.
    pub open spec fn wf(self) -> bool {
        &&& self.flags.known()
        &&& self.number_of_slice_keys == self.keys.len()
        &&& forall|i: int| 0 <= i < self.keys.len() ==> key_wf(#[trigger] self.keys[i], self.flags)
    }

    /// What stands in the way of encoding, if anything: a name too long for
    /// its length prefix, or else the problem of the first key that has one.
    pub open spec fn problem(self) -> Option<Error> {
        match string_problem(self.name) {
            Some(e) => Some(e),
            None => run_problem(self.keys, key_problem_of(self.flags)),
        }
    }

    /// The chunk on the wire: the fixed fields as they are stored, the
    /// reserved region zero, the name, then every key.
    pub open spec fn bytes(self) -> Seq<u8> {
        u32_bytes(self.number_of_slice_keys) + u32_bytes(self.flags.bits) + zeros(4)
            + string_bytes(self.name) + run_bytes(self.keys, key_bytes_of(self.flags))
    }
}

impl SliceKey {
    /// Decodes one key of a slice with these flags.
    pub fn from_read(read: &mut Reader, flags: Flags) -> (r: Result<SliceKey, Error>)
        ensures
            reads(
                *old(read),
                *final(read),
                r,
                spec_read_key(old(read).data(), old(read).pos() as int, flags),
            ),
    {
        let nine: bool = flags.contains(Flags::IS_NINE_PATCHES_SLICE);
        let pivot: bool = flags.contains(Flags::HAS_PIVOT_INFORMATION);
        let mut size: usize = 20;
        if nine {
            size = size + 16;
        }
        if pivot {
            size = size + 8;
        }
        read.need(size)?;
        let frame_number: u32 = read.read_u32()?;
        let x_origin: i32 = read.read_i32()?;
        let y_origin: i32 = read.read_i32()?;
        let width: u32 = read.read_u32()?;
        let height: u32 = read.read_u32()?;
        let nine_patches_info: Option<NinePatchesInfo> = if nine {
            let x_position: i32 = read.read_i32()?;
            let y_position: i32 = read.read_i32()?;
            let width: u32 = read.read_u32()?;
            let height: u32 = read.read_u32()?;
            Some(NinePatchesInfo { x_position, y_position, width, height })
        } else {
            None
        };
        let pivot_info: Option<PivotInfo> = if pivot {
            let x_position: i32 = read.read_i32()?;
            let y_position: i32 = read.read_i32()?;
            Some(PivotInfo { x_position, y_position })
        } else {
            None
        };
        Ok(
            SliceKey {
                frame_number,
                x_origin,
                y_origin,
                width,
                height,
                nine_patches_info,
                pivot_info,
            },
        )
    }

    /// Tells whether the key can be encoded in a slice with these flags,
    /// without encoding it.
    pub fn check(&self, flags: Flags) -> (r: Result<(), Error>)
        ensures
            match key_problem(*self, flags) {
                None => r is Ok,
                Some(e) => r == Err::<(), Error>(e),
            },
    {
        if flags.contains(Flags::IS_NINE_PATCHES_SLICE) && self.nine_patches_info.is_none() {
            Err(Error::FlagDataMismatch(Gated::NinePatches))
        } else if flags.contains(Flags::HAS_PIVOT_INFORMATION) && self.pivot_info.is_none() {
            Err(Error::FlagDataMismatch(Gated::Pivot))
        } else {
            Ok(())
        }
    }

    /// Encodes the key as one of a slice with these flags, or writes
    /// nothing where a part that the flags announce is absent.
    pub fn write(&self, wtr: &mut Vec<u8>, flags: Flags) -> (r: Result<(), Error>)
        ensures
            writes(old(wtr)@, final(wtr)@, r, key_problem(*self, flags), key_bytes(*self, flags)),
    {
        self.check(flags)?;
        write_u32(wtr, self.frame_number);
        write_i32(wtr, self.x_origin);
        write_i32(wtr, self.y_origin);
        write_u32(wtr, self.width);
        write_u32(wtr, self.height);
        if flags.contains(Flags::IS_NINE_PATCHES_SLICE) {
            match self.nine_patches_info {
                None => {},
                Some(info) => {
                    write_i32(wtr, info.x_position);
                    write_i32(wtr, info.y_position);
                    write_u32(wtr, info.width);
                    write_u32(wtr, info.height);
                },
            }
        }
        if flags.contains(Flags::HAS_PIVOT_INFORMATION) {
            match self.pivot_info {
                None => {},
                Some(info) => {
                    write_i32(wtr, info.x_position);
                    write_i32(wtr, info.y_position);
                },
            }
        }
        Ok(())
    }
}

impl SliceChunk {
    /// Decodes a slice chunk from where the reader stands.
    #[verifier::loop_isolation(false)]
    pub fn from_read(read: &mut Reader) -> (r: Result<SliceChunk, Error>)
        ensures
            reads(
                *old(read),
                *final(read),
                r,
                spec_read_slice(old(read).data(), old(read).pos() as int),
            ),
    {
        read.need(12)?;
        let number_of_slice_keys: u32 = read.read_u32()?;
        let flags: Flags = Flags::from_bits_truncate(read.read_u32()?);
        read.skip(4)?;
        let name: String = read_string(read)?;
        let ghost s = read.data();
        let ghost p0 = read.pos() as int;
        let mut keys: Vec<SliceKey> = Vec::new();
        let mut i: u32 = 0;
        while i < number_of_slice_keys
            invariant
                i <= number_of_slice_keys,
                read.data() == s,
                after(
                    keys@,
                    spec_read_run(
                        s,
                        read.pos() as int,
                        (number_of_slice_keys - i) as nat,
                        key_reader(flags),
                    ),
                ) == spec_read_run(s, p0, number_of_slice_keys as nat, key_reader(flags)),
            decreases number_of_slice_keys - i,
        {
            proof {
                lemma_read_run_step(
                    s,
                    read.pos() as int,
                    (number_of_slice_keys - i) as nat,
                    key_reader(flags),
                    keys@,
                );
            }
            let key: SliceKey = SliceKey::from_read(read, flags)?;
            keys.push(key);
            i = i + 1;
        }
        proof {
            lemma_read_run_done(s, read.pos() as int, key_reader(flags), keys@);
        }
        Ok(SliceChunk { number_of_slice_keys, flags, name, keys })
    }

    /// Tells whether the chunk can be encoded, without encoding it.
    pub fn check(&self) -> (r: Result<(), Error>)
        ensures
            match self@.problem() {
                None => r is Ok,
                Some(e) => r == Err::<(), Error>(e),
            },
    {
        check_string(self.name.as_str())?;
        let ghost keys = self.keys@;
        let ghost problem_of = key_problem_of(self.flags);
        let mut i: usize = 0;
        while i < self.keys.len()
            invariant
                i <= self.keys.len(),
                keys == self.keys@,
                problem_of == key_problem_of(self.flags),
                string_problem(self.name@) is None,
                run_problem(keys.take(i as int), problem_of) is None,
            decreases self.keys.len() - i,
        {
            proof {
                lemma_run_problem_push(keys.take(i as int), keys[i as int], problem_of);
                assert(keys.take(i as int).push(keys[i as int]) =~= keys.take(i + 1));
                if key_problem(keys[i as int], self.flags) is Some {
                    lemma_run_problem_prefix(keys, i + 1, problem_of);
                }
            }
            self.keys[i].check(self.flags)?;
            i = i + 1;
        }
        assert(keys.take(i as int) =~= keys);
        Ok(())
    }

    /// Encodes the chunk. A flag that announces a part which a key does not
    /// hold is an error, and so is a name that is too long; nothing is
    /// written then.
    pub fn write(&self, wtr: &mut Vec<u8>) -> (r: Result<(), Error>)
        ensures
            writes(old(wtr)@, final(wtr)@, r, self@.problem(), self@.bytes()),
    {
        self.check()?;
        write_u32(wtr, self.number_of_slice_keys);
        write_u32(wtr, self.flags.bits);
        write_zeros(wtr, 4);
        let _ = write_string(wtr, self.name.as_str());
        let ghost start = wtr@;
        let ghost keys = self.keys@;
        let ghost bytes_of = key_bytes_of(self.flags);
        let ghost problem_of = key_problem_of(self.flags);
        let mut i: usize = 0;
        while i < self.keys.len()
            invariant
                i <= self.keys.len(),
                keys == self.keys@,
                bytes_of == key_bytes_of(self.flags),
                problem_of == key_problem_of(self.flags),
                run_problem(keys, problem_of) is None,
                wtr@ == start + run_bytes(keys.take(i as int), bytes_of),
            decreases self.keys.len() - i,
        {
            proof {
                lemma_run_bytes_push(keys.take(i as int), keys[i as int], bytes_of);
                assert(keys.take(i as int).push(keys[i as int]) =~= keys.take(i + 1));
                lemma_run_problem_none(keys, problem_of, i as int);
            }
            let _ = self.keys[i].write(wtr, self.flags);
            i = i + 1;
        }
        assert(keys.take(i as int) =~= keys);
        Ok(())
    }
}

/// A key that was written reads back as it was.
pub proof fn lemma_key_roundtrip(key: SliceKey, flags: Flags, s: Seq<u8>, p: int)
    requires
        key_wf(key, flags),
        placed(s, p, key_bytes(key, flags)),
    ensures
        spec_read_key(s, p, flags) == Ok::<(SliceKey, int), Error>(
            (key, p + key_bytes(key, flags).len()),
        ),
{
    broadcast use group_placed;

    assert(placed(s, p, u32_bytes(key.frame_number)));
    assert(placed(s, p + 4, i32_bytes(key.x_origin)));
    assert(placed(s, p + 8, i32_bytes(key.y_origin)));
    assert(placed(s, p + 12, u32_bytes(key.width)));
    assert(placed(s, p + 16, u32_bytes(key.height)));
    if flags.spec_contains(Flags::IS_NINE_PATCHES_SLICE) {
        let info = key.nine_patches_info->Some_0;
        assert(placed(s, p + 20, i32_bytes(info.x_position)));
        assert(placed(s, p + 24, i32_bytes(info.y_position)));
        assert(placed(s, p + 28, u32_bytes(info.width)));
        assert(placed(s, p + 32, u32_bytes(info.height)));
    }
    if flags.spec_contains(Flags::HAS_PIVOT_INFORMATION) {
        let info = key.pivot_info->Some_0;
        assert(placed(s, p + 20 + nine_size(flags), i32_bytes(info.x_position)));
        assert(placed(s, p + 24 + nine_size(flags), i32_bytes(info.y_position)));
    }
}

/// A slice chunk that was written reads back as it was.
pub proof fn lemma_slice_roundtrip(v: SliceChunkView, s: Seq<u8>, p: int)
    requires
        v.wf(),
        v.problem() is None,
        placed(s, p, v.bytes()),
    ensures
        spec_read_slice(s, p) == Ok::<(SliceChunkView, int), Error>((v, p + v.bytes().len())),
{
    broadcast use group_placed;

    assert(placed(s, p, u32_bytes(v.number_of_slice_keys)));
    assert(placed(s, p + 4, u32_bytes(v.flags.bits)));
    lemma_string_roundtrip(v.name, s, p + 12);
    let q = p + 12 + string_bytes(v.name).len();
    assert forall|w: SliceKey, at: int|
        key_sound(v.flags)(w) && #[trigger] placed(s, at, key_bytes_of(v.flags)(w)) implies key_reader(
            v.flags,
        )(s, at) == Ok::<(SliceKey, int), Error>((w, at + key_bytes_of(v.flags)(w).len())) by {
        lemma_key_roundtrip(w, v.flags, s, at);
    }
    assert forall|i: int| 0 <= i < v.keys.len() implies #[trigger] key_sound(v.flags)(v.keys[i]) by {
        assert(key_wf(v.keys[i], v.flags));
    }
    lemma_run_roundtrip(v.keys, s, q, key_reader(v.flags), key_bytes_of(v.flags), key_sound(v.flags));
}

/// What holds of a key that was decoded: it holds exactly the parts that
/// the flags announce, and the decoder stopped within the input.
pub proof fn lemma_decoded_key(s: Seq<u8>, p: int, flags: Flags)
    requires
        spec_read_key(s, p, flags) is Ok,
    ensures
        key_wf(spec_read_key(s, p, flags)->Ok_0.0, flags),
        key_problem(spec_read_key(s, p, flags)->Ok_0.0, flags) is None,
        p <= spec_read_key(s, p, flags)->Ok_0.1 <= s.len(),
{
}

/// What holds of a slice chunk that was decoded: it is well formed and can
/// be encoded, and the decoder stopped within the input.
pub proof fn lemma_decoded_slice(s: Seq<u8>, p: int)
    requires
        spec_read_slice(s, p) is Ok,
    ensures
        spec_read_slice(s, p)->Ok_0.0.wf(),
        spec_read_slice(s, p)->Ok_0.0.problem() is None,
        p <= spec_read_slice(s, p)->Ok_0.1 <= s.len(),
{
    let raw = u32_at(s, p + 4);
    assert((raw & 3) & 3 == raw & 3) by (bit_vector);
    let flags = Flags { bits: raw & Flags::ALL };
    lemma_decoded_string(s, p + 12);
    let q0 = spec_read_string(s, p + 12)->Ok_0.1;
    assert forall|q: int|
        0 <= q <= s.len() && (#[trigger] key_reader(flags)(s, q)) is Ok implies key_sound(flags)(
        key_reader(flags)(s, q)->Ok_0.0,
    ) && q <= key_reader(flags)(s, q)->Ok_0.1 <= s.len() by {
        lemma_decoded_key(s, q, flags);
    }
    lemma_read_run_holds(s, q0, u32_at(s, p) as nat, key_reader(flags), key_sound(flags));
    let keys = spec_read_slice(s, p)->Ok_0.0.keys;
    assert forall|i: int| 0 <= i < keys.len() implies key_problem_of(flags)(
        #[trigger] keys[i],
    ) is None && key_wf(keys[i], flags) by {
        assert(key_sound(flags)(keys[i]));
    }
    lemma_run_problem_all_none(keys, key_problem_of(flags));
}

/// A key that decodes from `s` decodes to the same from every input that
/// begins with `s`.
pub proof fn lemma_key_extends(s: Seq<u8>, t: Seq<u8>, p: int, flags: Flags)
    requires
        begins(s, t),
        spec_read_key(s, p, flags) is Ok,
    ensures
        spec_read_key(t, p, flags) == spec_read_key(s, p, flags),
{
}

/// A slice chunk that decodes from `s` decodes to the same from every input
/// that begins with `s`.
pub proof fn lemma_slice_extends(s: Seq<u8>, t: Seq<u8>, p: int)
    requires
        begins(s, t),
        spec_read_slice(s, p) is Ok,
    ensures
        spec_read_slice(t, p) == spec_read_slice(s, p),
{
    let flags = Flags { bits: u32_at(s, p + 4) & Flags::ALL };
    lemma_string_extends(s, t, p + 12);
    let q0 = spec_read_string(s, p + 12)->Ok_0.1;
    assert forall|q: int| (#[trigger] key_reader(flags)(s, q)) is Ok implies key_reader(flags)(
        t,
        q,
    ) == key_reader(flags)(s, q) by {
        lemma_key_extends(s, t, q, flags);
    }
    lemma_read_run_extends(s, t, q0, u32_at(s, p) as nat, key_reader(flags));
}

} // verus!
