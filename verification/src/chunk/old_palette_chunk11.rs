//! The old palette chunk with 6-bit channels: a list of packets, each a
//! number of palette slots to pass over and a run of colours.
use crate::color::{rgb64_at, rgb64_bytes, RGB64};
use crate::error::Error;
use crate::list::{
    after, lemma_read_run_done, lemma_read_run_extends, lemma_read_run_holds, lemma_read_run_step,
    lemma_run_bytes_push, lemma_run_roundtrip, run_bytes, seq_view, spec_read_run,
};
use crate::reader::{avail, reads, Reader};
use crate::wire::{begins, group_placed, lemma_placed_index, placed, u16_at, u16_bytes};
use crate::writer::{write_u16, write_u8};
use vstd::prelude::*;

verus! {

broadcast use Reader::lemma_in_bounds;

/// A run of colours that follows `palette_entries_to_skip` palette slots.
#[derive(Debug, Clone, PartialEq, Eq)]
pub struct Packet {
    pub palette_entries_to_skip: u8,
    pub colors: Vec<RGB64>,
}

/// The value of a [`Packet`] as mathematics: sequences in place of vectors
/// and strings.
pub ghost struct PacketView {
    pub palette_entries_to_skip: u8,
    pub colors: Seq<RGB64>,
}

impl View for Packet {
    type V = PacketView;

    open spec fn view(&self) -> PacketView {
        PacketView { palette_entries_to_skip: self.palette_entries_to_skip, colors: self.colors@ }
    }
}

/// An old palette with 6-bit channels. `number_of_packets` is written as it
/// is stored.
#[derive(Debug, Clone, PartialEq, Eq)]
pub struct OldPaletteChunk11 {
    pub number_of_packets: u16,
    pub packets: Vec<Packet>,
}

/// The value of an [`OldPaletteChunk11`] as mathematics: sequences in place of vectors
/// and strings.
pub ghost struct OldPaletteChunk11View {
    pub number_of_packets: u16,
    pub packets: Seq<PacketView>,
}

impl View for OldPaletteChunk11 {
    type V = OldPaletteChunk11View;

    open spec fn view(&self) -> OldPaletteChunk11View {
        OldPaletteChunk11View {
            number_of_packets: self.number_of_packets,
            packets: seq_view(self.packets@),
        }
    }
}

/// The number of colours that a count byte announces: a zero byte stands
/// for 256.
pub open spec fn color_count(byte: u8) -> int {
    if byte == 0 {
        256
    } else {
        byte as int
    }
}

/// The packet that starts at position `p`.
pub open spec fn spec_read_packet(s: Seq<u8>, p: int) -> Result<(PacketView, int), Error> {
    if !avail(s, p, 2) {
        Err(Error::UnexpectedEof)
    } else if !avail(s, p + 2, 3 * color_count(s[p + 1])) {
        Err(Error::UnexpectedEof)
    } else {
        Ok(
            (
                PacketView {
                    palette_entries_to_skip: s[p],
                    colors: Seq::new(
                        color_count(s[p + 1]) as nat,
                        |i: int| rgb64_at(s, p + 2 + 3 * i),
                    ),
                },
                p + 2 + 3 * color_count(s[p + 1]),
            ),
        )
    }
}

/// The decoder of one packet, as a value that a run can take.
pub open spec fn packet_reader() -> spec_fn(Seq<u8>, int) -> Result<(PacketView, int), Error> {
    |s: Seq<u8>, p: int| spec_read_packet(s, p)
}

/// The chunk that starts at position `p`: a count, then that many packets.
pub open spec fn spec_read_old_palette11(s: Seq<u8>, p: int) -> Result<
    (OldPaletteChunk11View, int),
    Error,
> {
    if !avail(s, p, 2) {
        Err(Error::UnexpectedEof)
    } else {
        match spec_read_run(s, p + 2, u16_at(s, p) as nat, packet_reader()) {
            Err(e) => Err(e),
            Ok((packets, q)) => Ok(
                (OldPaletteChunk11View { number_of_packets: u16_at(s, p), packets }, q),
            ),
        }
    }
}

/// The bytes of a run of colours: three a colour, in order.
pub open spec fn color_run_bytes(colors: Seq<RGB64>) -> Seq<u8> {
    Seq::new(3 * colors.len(), |k: int| rgb64_bytes(colors[k / 3])[k % 3])
}

impl PacketView {
    /// A packet holds 1 to 256 colours: no other number has a count byte.
    pub open spec fn wf(self) -> bool {
        1 <= self.colors.len() <= 256
    }

    /// The packet on the wire. The count byte is the number of colours
    /// modulo 256, so that 256 colours are written as a zero byte.
    pub open spec fn bytes(self) -> Seq<u8> {
        seq![self.palette_entries_to_skip] + seq![(self.colors.len() % 256) as u8]
            + color_run_bytes(self.colors)
    }
}

/// The bytes of one packet, as a value that a run can take.
pub open spec fn packet_bytes() -> spec_fn(PacketView) -> Seq<u8> {
    |v: PacketView| v.bytes()
}

/// Whether one packet is well formed, as a value that a run can take.
pub open spec fn packet_wf() -> spec_fn(PacketView) -> bool {
    |v: PacketView| v.wf()
}

impl OldPaletteChunk11View {
    /// The count is the number of packets, and every packet is well formed.
    pub open spec fn wf(self) -> bool {
        &&& self.number_of_packets == self.packets.len()
        &&& forall|i: int| 0 <= i < self.packets.len() ==> (#[trigger] self.packets[i]).wf()
    }

    /// The chunk on the wire.
    pub open spec fn bytes(self) -> Seq<u8> {
        u16_bytes(self.number_of_packets) + run_bytes(self.packets, packet_bytes())
    }
}

impl Packet {
    /// Decodes one packet. A count byte of zero announces 256 colours.
    pub fn from_read(read: &mut Reader) -> (r: Result<Packet, Error>)
        ensures
            reads(
                *old(read),
                *final(read),
                r,
                spec_read_packet(old(read).data(), old(read).pos() as int),
            ),
    {
        read.need(2)?;
        let palette_entries_to_skip: u8 = read.read_u8()?;
        let count_byte: u8 = read.read_u8()?;
        let number_of_colors: usize = if count_byte == 0 {
            256
        } else {
            count_byte as usize
        };
        read.need(3 * number_of_colors)?;
        let ghost s = read.data();
        let ghost p0 = read.pos() as int;
        let mut colors: Vec<RGB64> = Vec::new();
        let mut i: usize = 0;
        while i < number_of_colors
            invariant
                i <= number_of_colors,
                p0 + 3 * number_of_colors <= s.len(),
                read.data() == s,
                read.pos() == p0 + 3 * i,
                colors@ =~= Seq::new(i as nat, |k: int| rgb64_at(s, p0 + 3 * k)),
            decreases number_of_colors - i,
        {
            let r: u8 = read.read_u8()?;
            let g: u8 = read.read_u8()?;
            let b: u8 = read.read_u8()?;
            colors.push(RGB64 { r, g, b });
            i = i + 1;
        }
        Ok(Packet { palette_entries_to_skip, colors })
    }

    /// Encodes one packet. 256 colours are announced by a zero byte.
    pub fn write(&self, wtr: &mut Vec<u8>) -> (r: Result<(), Error>)
        ensures
            r is Ok,
            final(wtr)@ == old(wtr)@ + self@.bytes(),
    {
        write_u8(wtr, self.palette_entries_to_skip);
        write_u8(wtr, (self.colors.len() % 256) as u8);
        let ghost start = wtr@;
        let mut i: usize = 0;
        while i < self.colors.len()
            invariant
                i <= self.colors.len(),
                wtr@ =~= start + color_run_bytes(self.colors@.take(i as int)),
            decreases self.colors.len() - i,
        {
            let color: RGB64 = self.colors[i];
            write_u8(wtr, color.r);
            write_u8(wtr, color.g);
            write_u8(wtr, color.b);
            i = i + 1;
        }
        assert(self.colors@.take(i as int) =~= self.colors@);
        Ok(())
    }
}

impl OldPaletteChunk11 {
    /// Decodes an old palette chunk from where the reader stands.
    #[verifier::loop_isolation(false)]
    pub fn from_read(read: &mut Reader) -> (r: Result<OldPaletteChunk11, Error>)
        ensures
            reads(
                *old(read),
                *final(read),
                r,
                spec_read_old_palette11(old(read).data(), old(read).pos() as int),
            ),
    {
        let number_of_packets: u16 = read.read_u16()?;
        let ghost s = read.data();
        let ghost p0 = read.pos() as int;
        let mut packets: Vec<Packet> = Vec::new();
        let mut i: u16 = 0;
        while i < number_of_packets
            invariant
                i <= number_of_packets,
                read.data() == s,
                after(
                    seq_view(packets@),
                    spec_read_run(
                        s,
                        read.pos() as int,
                        (number_of_packets - i) as nat,
                        packet_reader(),
                    ),
                ) == spec_read_run(s, p0, number_of_packets as nat, packet_reader()),
            decreases number_of_packets - i,
        {
            proof {
                lemma_read_run_step(
                    s,
                    read.pos() as int,
                    (number_of_packets - i) as nat,
                    packet_reader(),
                    seq_view(packets@),
                );
            }
            let ghost before = seq_view(packets@);
            let packet: Packet = Packet::from_read(read)?;
            packets.push(packet);
            assert(seq_view(packets@) =~= before.push(packet@));
            i = i + 1;
        }
        proof {
            lemma_read_run_done(s, read.pos() as int, packet_reader(), seq_view(packets@));
        }
        Ok(OldPaletteChunk11 { number_of_packets, packets })
    }

    /// Encodes the count as it is stored, then every packet.
    pub fn write(&self, wtr: &mut Vec<u8>) -> (r: Result<(), Error>)
        ensures
            r is Ok,
            final(wtr)@ == old(wtr)@ + self@.bytes(),
    {
        write_u16(wtr, self.number_of_packets);
        let ghost start = wtr@;
        let mut i: usize = 0;
        while i < self.packets.len()
            invariant
                i <= self.packets.len(),
                wtr@ == start + run_bytes(seq_view(self.packets@).take(i as int), packet_bytes()),
            decreases self.packets.len() - i,
        {
            proof {
                let views = seq_view(self.packets@);
                lemma_run_bytes_push(views.take(i as int), views[i as int], packet_bytes());
                assert(views.take(i as int).push(views[i as int]) =~= views.take(i + 1));
            }
            let _ = self.packets[i].write(wtr);
            i = i + 1;
        }
        assert(seq_view(self.packets@).take(i as int) =~= seq_view(self.packets@));
        Ok(())
    }
}

/// A packet that was written reads back as it was.
pub proof fn lemma_packet_roundtrip(v: PacketView, s: Seq<u8>, p: int)
    requires
        v.wf(),
        placed(s, p, v.bytes()),
    ensures
        spec_read_packet(s, p) == Ok::<(PacketView, int), Error>((v, p + v.bytes().len())),
{
    broadcast use group_placed;

    let n = v.colors.len() as int;
    let run = color_run_bytes(v.colors);
    assert(color_count(s[p + 1]) == n);
    assert(placed(s, p + 2, run));
    let got = Seq::new(n as nat, |i: int| rgb64_at(s, p + 2 + 3 * i));
    assert(got =~= v.colors) by {
        assert forall|i: int| 0 <= i < n implies got[i] == v.colors[i] by {
            lemma_placed_index(s, p + 2, run, 3 * i);
            lemma_placed_index(s, p + 2, run, 3 * i + 1);
            lemma_placed_index(s, p + 2, run, 3 * i + 2);
        }
    }
}

/// The zero-count rule. A packet whose count byte is zero decodes exactly
/// where 256 colours follow, to a packet of 256 colours, and that packet is
/// written with a zero count byte again.
pub proof fn lemma_zero_count_is_256(s: Seq<u8>, p: int)
    requires
        avail(s, p, 2),
        s[p + 1] == 0,
    ensures
        spec_read_packet(s, p) is Ok <==> avail(s, p + 2, 768),
        spec_read_packet(s, p) matches Ok((v, q)) ==> v.colors.len() == 256 && q == p + 770
            && v.bytes()[1] == 0,
{
}

/// A chunk that was written reads back as it was.
pub proof fn lemma_old_palette11_roundtrip(v: OldPaletteChunk11View, s: Seq<u8>, p: int)
    requires
        v.wf(),
        placed(s, p, v.bytes()),
    ensures
        spec_read_old_palette11(s, p) == Ok::<(OldPaletteChunk11View, int), Error>(
            (v, p + v.bytes().len()),
        ),
{
    broadcast use group_placed;

    assert forall|w: PacketView, q: int|
        packet_wf()(w) && #[trigger] placed(s, q, packet_bytes()(w)) implies packet_reader()(s, q)
        == Ok::<(PacketView, int), Error>((w, q + packet_bytes()(w).len())) by {
        lemma_packet_roundtrip(w, s, q);
    }
    assert forall|i: int| 0 <= i < v.packets.len() implies #[trigger] packet_wf()(v.packets[i]) by {
        assert(v.packets[i].wf());
    }
    lemma_run_roundtrip(v.packets, s, p + 2, packet_reader(), packet_bytes(), packet_wf());
}

/// A packet that was decoded is written with exactly the bytes that it was
/// decoded from, its count byte as it stood.
pub proof fn lemma_packet_reencodes(s: Seq<u8>, p: int)
    requires
        spec_read_packet(s, p) is Ok,
    ensures
        spec_read_packet(s, p)->Ok_0.0.bytes() == s.subrange(p, spec_read_packet(s, p)->Ok_0.1),
{
    let (v, q) = spec_read_packet(s, p)->Ok_0;
    let n = color_count(s[p + 1]);
    let run = color_run_bytes(v.colors);
    assert(run.len() == 3 * n);
    assert forall|k: int| 0 <= k < 3 * n implies run[k] == s[p + 2 + k] by {
        let i = k / 3;
        let j = k % 3;
        assert(k == 3 * i + j);
        assert(v.colors[i] == rgb64_at(s, p + 2 + 3 * i));
    }
    assert(v.bytes() =~= s.subrange(p, q));
}

/// What holds of a packet that was decoded: it is well formed, and the
/// decoder stopped within the input.
pub proof fn lemma_decoded_packet(s: Seq<u8>, p: int)
    requires
        spec_read_packet(s, p) is Ok,
    ensures
        spec_read_packet(s, p)->Ok_0.0.wf(),
        p <= spec_read_packet(s, p)->Ok_0.1 <= s.len(),
{
}

/// What holds of a chunk that was decoded: it is well formed, and the
/// decoder stopped within the input.
pub proof fn lemma_decoded_old_palette11(s: Seq<u8>, p: int)
    requires
        spec_read_old_palette11(s, p) is Ok,
    ensures
        spec_read_old_palette11(s, p)->Ok_0.0.wf(),
        p <= spec_read_old_palette11(s, p)->Ok_0.1 <= s.len(),
{
    assert forall|q: int|
        0 <= q <= s.len() && (#[trigger] packet_reader()(s, q)) is Ok implies packet_wf()(
        packet_reader()(s, q)->Ok_0.0,
    ) && q <= packet_reader()(s, q)->Ok_0.1 <= s.len() by {
        lemma_decoded_packet(s, q);
    }
    lemma_read_run_holds(s, p + 2, u16_at(s, p) as nat, packet_reader(), packet_wf());
}

/// A packet that decodes from `s` decodes to the same from every input
/// that begins with `s`.
pub proof fn lemma_packet_extends(s: Seq<u8>, t: Seq<u8>, p: int)
    requires
        begins(s, t),
        spec_read_packet(s, p) is Ok,
    ensures
        spec_read_packet(t, p) == spec_read_packet(s, p),
{
    let n = color_count(s[p + 1]) as nat;
    assert(s[p] == t[p] && s[p + 1] == t[p + 1]);
    let from_s = Seq::new(n, |i: int| rgb64_at(s, p + 2 + 3 * i));
    let from_t = Seq::new(n, |i: int| rgb64_at(t, p + 2 + 3 * i));
    assert(from_s =~= from_t) by {
        assert forall|i: int| 0 <= i < n implies from_s[i] == from_t[i] by {
            assert(s[p + 2 + 3 * i] == t[p + 2 + 3 * i]);
            assert(s[p + 2 + 3 * i + 1] == t[p + 2 + 3 * i + 1]);
            assert(s[p + 2 + 3 * i + 2] == t[p + 2 + 3 * i + 2]);
        }
    }
}

/// A chunk that decodes from `s` decodes to the same from every input that
/// begins with `s`.
pub proof fn lemma_old_palette11_extends(s: Seq<u8>, t: Seq<u8>, p: int)
    requires
        begins(s, t),
        spec_read_old_palette11(s, p) is Ok,
    ensures
        spec_read_old_palette11(t, p) == spec_read_old_palette11(s, p),
{
    assert(s[p] == t[p] && s[p + 1] == t[p + 1]);
    assert forall|q: int| (#[trigger] packet_reader()(s, q)) is Ok implies packet_reader()(t, q)
        == packet_reader()(s, q) by {
        lemma_packet_extends(s, t, q);
    }
    lemma_read_run_extends(s, t, p + 2, u16_at(s, p) as nat, packet_reader());
}

} // verus!
