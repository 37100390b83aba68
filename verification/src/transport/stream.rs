//! Packets on a stream of bytes, as TCP and WebTransport offer one.
//!
//! Each packet stands behind its size, four bytes with the lowest first.

use crate::transport::{MaxPacketSize, TransportProperties};
use vstd::bytes::{u32_from_le_bytes, u32_to_le_bytes};
use vstd::prelude::*;

verus! {

/// How long a server waits after a failure to accept a stream before it tries again, in
/// milliseconds.
pub const ACCEPT_RETRY_MILLIS: u64 = 100;

/// What a transport over a stream promises.
pub fn properties() -> (res: TransportProperties)
    ensures
        res.is_reliable,
        res.is_ordered,
        res.max_packet_size.size() == crate::transport::LARGEST_MAX_PACKET_SIZE,
{
    TransportProperties {
        is_reliable: true,
        is_ordered: true,
        max_packet_size: MaxPacketSize::max(),
    }
}

/// The bytes that a packet takes on the stream.
pub open spec fn frame(packet: Seq<u8>) -> Seq<u8> {
    vstd::bytes::spec_u32_to_le_bytes(packet.len() as u32) + packet
}

/// The bytes that go before a packet on the stream. The packet itself follows them.
pub fn frame_header(packet: &[u8]) -> (res: Vec<u8>)
    ensures
        res@ + packet@ == frame(packet@),
{
    let size: u32 = #[verifier::truncate] (packet.len() as u32);
    u32_to_le_bytes(size)
}

/// Where the reader of a stream is.
#[derive(Debug, Clone, Copy, PartialEq, Eq, Structural)]
pub enum ReadPosition {
    /// Before the size of a packet.
    Header,
    /// Before a packet of the given size.
    Body(usize),
}

/// What comes of bytes that were read from a stream.
#[derive(Debug)]
pub enum FrameStep {
    /// Read on.
    ReadOn,
    /// A packet has been read.
    Packet(Vec<u8>),
    /// The packet is larger than there is room for.
    TooLarge,
}

impl FrameStep {
    /// A packet has been read, which is `packet`.
    pub open spec fn is_packet(self, packet: Seq<u8>) -> bool {
        self matches FrameStep::Packet(read) && read@ == packet
    }
}

/// The reader of a stream of packets.
#[derive(Debug)]
pub struct FrameReader {
    /// The size up to which there is room for a packet.
    pub room: usize,
    pub position: ReadPosition,
}

impl FrameReader {
    /// A reader at the start of a stream.
    pub fn new(room: usize) -> (res: Self)
        ensures
            res == (FrameReader { room, position: ReadPosition::Header }),
    {
        FrameReader { room, position: ReadPosition::Header }
    }

    /// How many bytes have to be read next.
    pub open spec fn wants(&self) -> usize {
        match self.position {
            ReadPosition::Header => 4,
            ReadPosition::Body(size) => size,
        }
    }

    /// How many bytes have to be read next.
    pub fn wanted(&self) -> (res: usize)
        ensures
            res == self.wants(),
    {
        match self.position {
            ReadPosition::Header => 4,
            ReadPosition::Body(size) => size,
        }
    }

    /// Takes in the bytes that have been read.
    pub fn take_in(&mut self, bytes: Vec<u8>) -> (res: FrameStep)
        requires
            bytes@.len() == old(self).wants(),
        ensures
            old(self).took_in(*final(self), bytes@, res),
    {
        match self.position {
            ReadPosition::Header => {
                let size: usize = u32_from_le_bytes(bytes.as_slice()) as usize;
                if size > self.room {
                    FrameStep::TooLarge
                } else {
                    self.position = ReadPosition::Body(size);
                    FrameStep::ReadOn
                }
            },
            ReadPosition::Body(_) => {
                self.position = ReadPosition::Header;
                FrameStep::Packet(bytes)
            },
        }
    }

    /// What `take_in` does to the reader, and what it returns.
    pub open spec fn took_in(self, after: Self, bytes: Seq<u8>, res: FrameStep) -> bool {
        match self.position {
            ReadPosition::Header => {
                let size = vstd::bytes::spec_u32_from_le_bytes(bytes);
                if size <= self.room {
                    &&& after == (FrameReader {
                        position: ReadPosition::Body(size as usize),
                        ..self
                    })
                    &&& res == FrameStep::ReadOn
                } else {
                    after == self && res == FrameStep::TooLarge
                }
            },
            ReadPosition::Body(_) => {
                &&& after == (FrameReader { position: ReadPosition::Header, ..self })
                &&& res.is_packet(bytes)
            },
        }
    }

    /// A packet that was written to a stream is read from it as it was, if there is room for it, and
    /// the reader is then behind it. If there is not, that is found out before the packet is read.
    pub proof fn lemma_read_back(
        self,
        packet: Seq<u8>,
        rest: Seq<u8>,
        after_header: Self,
        after_body: Self,
        header: FrameStep,
        body: FrameStep,
    )
        requires
            self.position == ReadPosition::Header,
            packet.len() <= u32::MAX,
            self.took_in(after_header, (frame(packet) + rest).take(4), header),
            after_header.position is Body ==> after_header.took_in(
                after_body,
                (frame(packet) + rest).skip(4).take(after_header.wants() as int),
                body,
            ),
        ensures
            packet.len() <= self.room ==> {
                &&& header == FrameStep::ReadOn
                &&& body.is_packet(packet)
                &&& after_body == self
                &&& (frame(packet) + rest).skip(4).skip(after_header.wants() as int) == rest
            },
            packet.len() > self.room ==> header == FrameStep::TooLarge && after_header == self,
    {
        vstd::bytes::lemma_auto_spec_u32_to_from_le_bytes();
        let stream = frame(packet) + rest;
        assert(stream.take(4) =~= vstd::bytes::spec_u32_to_le_bytes(packet.len() as u32));
        assert(stream.skip(4).take(packet.len() as int) =~= packet);
        assert(stream.skip(4).skip(packet.len() as int) =~= rest);
    }
}

/// On a stream a packet stands whole behind its size, which is a number of four bytes with the lowest
/// first.
pub proof fn lemma_frame_layout(packet: Seq<u8>)
    requires
        packet.len() <= u32::MAX,
    ensures
        frame(packet).len() == packet.len() + 4,
        vstd::bytes::spec_u32_from_le_bytes(frame(packet).take(4)) == packet.len(),
        frame(packet).skip(4) == packet,
{
    vstd::bytes::lemma_auto_spec_u32_to_from_le_bytes();
    assert(frame(packet).take(4) =~= vstd::bytes::spec_u32_to_le_bytes(packet.len() as u32));
    assert(frame(packet).skip(4) =~= packet);
}

impl FrameReader {
    /// Before the size of a packet four bytes are read. A size for which there is room is that of the
    /// packet that is read next, and one for which there is none leaves the reader where it is.
    pub proof fn lemma_size_read(self, after: Self, bytes: Seq<u8>, res: FrameStep)
        requires
            self.position is Header,
            self.took_in(after, bytes, res),
        ensures
            self.wants() == 4,
            after.room == self.room,
            vstd::bytes::spec_u32_from_le_bytes(bytes) <= self.room ==> res is ReadOn
                && after.position is Body && after.wants() == vstd::bytes::spec_u32_from_le_bytes(
                bytes,
            ),
            vstd::bytes::spec_u32_from_le_bytes(bytes) > self.room ==> res is TooLarge
                && after.position is Header,
    {
    }

    /// Behind the size of a packet as many bytes are read as it says. They are the packet, and the size
    /// of another is read next.
    pub proof fn lemma_packet_read(self, after: Self, size: usize, bytes: Seq<u8>, res: FrameStep)
        requires
            self.position == ReadPosition::Body(size),
            self.took_in(after, bytes, res),
        ensures
            self.wants() == size,
            after.room == self.room,
            after.position is Header,
            res matches FrameStep::Packet(packet) && packet@ == bytes,
    {
    }
}

/// The packets on a stream, one after the other.
pub open spec fn frames(packets: Seq<Seq<u8>>) -> Seq<u8>
    decreases packets.len(),
{
    if packets.len() == 0 {
        Seq::empty()
    } else {
        frame(packets.first()) + frames(packets.drop_first())
    }
}

/// `steps` are what comes of reading `streams[0]` step by step: `readers[i]` reads from `streams[i]`
/// what it wants, and leaves `streams[i + 1]`.
pub open spec fn reads(
    readers: Seq<FrameReader>,
    streams: Seq<Seq<u8>>,
    steps: Seq<FrameStep>,
) -> bool {
    &&& readers.len() == steps.len() + 1
    &&& streams.len() == steps.len() + 1
    &&& forall|i: int|
        0 <= i < steps.len() ==> {
            let wants = readers[i].wants() as int;
            &&& readers[i].took_in(readers[i + 1], streams[i].take(wants), #[trigger] steps[i])
            &&& streams[i + 1] == streams[i].skip(wants)
        }
}

/// Packet number `k` is read in two steps, first its size and then the packet itself.
pub open spec fn reads_packet(steps: Seq<FrameStep>, k: int, packet: Seq<u8>) -> bool {
    steps[2 * k] is ReadOn && steps[2 * k + 1].is_packet(packet)
}

/// The packets that were written to a stream are read from it as they were, in the order in which
/// they were written, if there is room for each of them.
pub proof fn lemma_packets_in_order(
    packets: Seq<Seq<u8>>,
    readers: Seq<FrameReader>,
    streams: Seq<Seq<u8>>,
    steps: Seq<FrameStep>,
)
    requires
        reads(readers, streams, steps),
        steps.len() == 2 * packets.len(),
        streams[0] == frames(packets),
        readers[0].position == ReadPosition::Header,
        forall|k: int|
            0 <= k < packets.len() ==> (#[trigger] packets[k]).len() <= readers[0].room
                && packets[k].len() <= u32::MAX,
    ensures
        forall|k: int| 0 <= k < packets.len() ==> #[trigger] reads_packet(steps, k, packets[k]),
        readers.last() == readers[0],
        streams.last() == Seq::<u8>::empty(),
{
    assert forall|k: int| 0 <= k < packets.len() implies #[trigger] reads_packet(
        steps,
        k,
        packets[k],
    ) by {
        lemma_reads_on(packets, readers, streams, steps, k + 1);
    }
    lemma_reads_on(packets, readers, streams, steps, packets.len() as int);
    assert(packets.skip(packets.len() as int) =~= Seq::empty());
}

/// After `k` packets were read, the others stand on the stream.
proof fn lemma_reads_on(
    packets: Seq<Seq<u8>>,
    readers: Seq<FrameReader>,
    streams: Seq<Seq<u8>>,
    steps: Seq<FrameStep>,
    k: int,
)
    requires
        reads(readers, streams, steps),
        steps.len() == 2 * packets.len(),
        streams[0] == frames(packets),
        readers[0].position == ReadPosition::Header,
        forall|k: int|
            0 <= k < packets.len() ==> (#[trigger] packets[k]).len() <= readers[0].room
                && packets[k].len() <= u32::MAX,
        0 <= k <= packets.len(),
    ensures
        readers[2 * k] == readers[0],
        streams[2 * k] == frames(packets.skip(k)),
        k > 0 ==> reads_packet(steps, k - 1, packets[k - 1]),
    decreases k,
{
    if k == 0 {
        assert(packets.skip(0) =~= packets);
    } else {
        lemma_reads_on(packets, readers, streams, steps, k - 1);
        let i = 2 * k - 2;
        let packet = packets[k - 1];
        let left = packets.skip(k - 1);
        let rest = frames(packets.skip(k));
        assert(left.first() == packet);
        assert(left.drop_first() =~= packets.skip(k));
        assert(streams[i] == frame(packet) + rest);
        let header = steps[i];
        let body = steps[i + 1];
        readers[i].lemma_read_back(packet, rest, readers[i + 1], readers[i + 2], header, body);
    }
}

} // verus!
