//! The bytes that a server and its clients exchange.
//!
//! The first byte of a packet tells what it holds. Up to `MAX_CHANNEL_ID` it is the channel of the
//! message that follows. Above that it is the kind of a message that keeps a connection.

use crate::channel_id::ChannelId;
use crate::handle::ConnectionIdx;
use crate::identity::ConnectionUuid;
use crate::transport::MaxPacketSize;
use tinyvec::ArrayVec;
use vstd::bytes::{u32_from_le_bytes, u32_to_le_bytes};
use vstd::prelude::*;
use vstd::slice::slice_subrange;

verus! {

/// The highest channel number.
pub const MAX_CHANNEL_ID: u8 = 127;

/// `tinyvec::ArrayVec`, a vector that holds its items in an array of fixed size.
#[verifier::external_type_specification]
#[verifier::external_body]
#[verifier::reject_recursive_types(A)]
pub struct ExArrayVec<A>(ArrayVec<A>);

/// The items that an `ArrayVec` holds, in order.
pub uninterp spec fn array_vec_items(v: ArrayVec<[u8; 21]>) -> Seq<u8>;

/// `ArrayVec::new` makes a vector without items.
#[verifier::external_body]
fn array_vec_new() -> (res: ArrayVec<[u8; 21]>)
    ensures
        array_vec_items(res) == Seq::<u8>::empty(),
{
    ArrayVec::new()
}

/// `ArrayVec::push` appends an item. It panics where the array is full.
#[verifier::external_body]
fn array_vec_push(v: &mut ArrayVec<[u8; 21]>, item: u8)
    requires
        array_vec_items(*old(v)).len() < 21,
    ensures
        array_vec_items(*final(v)) == array_vec_items(*old(v)).push(item),
{
    v.push(item);
}

/// `ArrayVec::extend_from_slice` appends the items of a slice. It panics where the array has no
/// room for them.
#[verifier::external_body]
fn array_vec_extend_from_slice(v: &mut ArrayVec<[u8; 21]>, items: &[u8])
    requires
        array_vec_items(*old(v)).len() + items@.len() <= 21,
    ensures
        array_vec_items(*final(v)) == array_vec_items(*old(v)) + items@,
{
    v.extend_from_slice(items);
}

/// `ArrayVec::from_iter`, on an array of one item, makes a vector of that item.
#[verifier::external_body]
fn array_vec_from_item(item: u8) -> (res: ArrayVec<[u8; 21]>)
    ensures
        array_vec_items(res) == seq![item],
{
    ArrayVec::from_iter([item])
}

/// The size up to which a message fits into one packet, beside its channel.
pub fn max_payload_size(max_packet_size: MaxPacketSize) -> (res: usize)
    ensures
        res == max_packet_size.size() - 1,
{
    max_packet_size.get() - 1
}

/// What a server tells a client about their connection.
#[derive(Debug, Clone, Copy, PartialEq, Eq, Structural)]
pub enum InternalS2C {
    Connect(ConnectionIdx, ConnectionUuid),
    Disconnect,
    RequestId,
}

impl InternalS2C {
    /// The bytes of the message: its kind, then its fields.
    pub open spec fn bytes(self) -> Seq<u8> {
        match self {
            InternalS2C::Connect(connection_idx, uuid) => seq![128u8] + identification(
                connection_idx,
                uuid,
            ),
            InternalS2C::Disconnect => seq![129u8],
            InternalS2C::RequestId => seq![130u8],
        }
    }

    /// The message that `buf` holds. Its fields are taken from the start of `buf`.
    pub open spec fn parse(buf: Seq<u8>) -> Option<Self> {
        if buf.len() == 21 && buf[0] == 128 {
            let (connection_idx, uuid) = identified(buf);
            Some(InternalS2C::Connect(connection_idx, uuid))
        } else if buf.len() == 1 && buf[0] == 129 {
            Some(InternalS2C::Disconnect)
        } else if buf.len() == 1 && buf[0] == 130 {
            Some(InternalS2C::RequestId)
        } else {
            None
        }
    }

    pub fn decode(buf: &[u8]) -> (res: Option<Self>)
        ensures
            res == Self::parse(buf@),
    {
        if buf.len() == 0 {
            return None;
        }
        let kind: u8 = buf[0];
        let size: usize = buf.len() - 1;
        match (kind, size) {
            (128, 20) => {
                let (connection_idx, uuid) = decode_identification(buf);
                Some(InternalS2C::Connect(connection_idx, uuid))
            },
            (129, 0) => Some(InternalS2C::Disconnect),
            (130, 0) => Some(InternalS2C::RequestId),
            (_, _) => None,
        }
    }

    pub fn encode(&self) -> (res: ArrayVec<[u8; 21]>)
        ensures
            array_vec_items(res) == self.bytes(),
    {
        match self {
            InternalS2C::Connect(connection_idx, uuid) => encode_identification(
                128,
                *connection_idx,
                *uuid,
            ),
            InternalS2C::Disconnect => array_vec_from_item(129),
            InternalS2C::RequestId => array_vec_from_item(130),
        }
    }
}

/// What a client tells a server about their connection.
#[derive(Debug, Clone, Copy, PartialEq, Eq, Structural)]
pub enum InternalC2S {
    Connect,
    Disconnect,
    ProvideId(ConnectionIdx, ConnectionUuid),
}

impl InternalC2S {
    /// The bytes of the message: its kind, then its fields.
    pub open spec fn bytes(self) -> Seq<u8> {
        match self {
            InternalC2S::Connect => seq![128u8],
            InternalC2S::Disconnect => seq![129u8],
            InternalC2S::ProvideId(connection_idx, uuid) => seq![130u8] + identification(
                connection_idx,
                uuid,
            ),
        }
    }

    /// The message that `buf` holds. Its fields are taken from the start of `buf`.
    pub open spec fn parse(buf: Seq<u8>) -> Option<Self> {
        if buf.len() == 1 && buf[0] == 128 {
            Some(InternalC2S::Connect)
        } else if buf.len() == 1 && buf[0] == 129 {
            Some(InternalC2S::Disconnect)
        } else if buf.len() == 21 && buf[0] == 130 {
            let (connection_idx, uuid) = identified(buf);
            Some(InternalC2S::ProvideId(connection_idx, uuid))
        } else {
            None
        }
    }

    pub fn decode(buf: &[u8]) -> (res: Option<Self>)
        ensures
            res == Self::parse(buf@),
    {
        if buf.len() == 0 {
            return None;
        }
        let kind: u8 = buf[0];
        let size: usize = buf.len() - 1;
        match (kind, size) {
            (128, 0) => Some(InternalC2S::Connect),
            (129, 0) => Some(InternalC2S::Disconnect),
            (130, 20) => {
                let (connection_idx, uuid) = decode_identification(buf);
                Some(InternalC2S::ProvideId(connection_idx, uuid))
            },
            (_, _) => None,
        }
    }

    pub fn encode(&self) -> (res: ArrayVec<[u8; 21]>)
        ensures
            array_vec_items(res) == self.bytes(),
    {
        match self {
            InternalC2S::Connect => array_vec_from_item(128),
            InternalC2S::Disconnect => array_vec_from_item(129),
            InternalC2S::ProvideId(connection_idx, uuid) => encode_identification(
                130,
                *connection_idx,
                *uuid,
            ),
        }
    }
}

/// The bytes by which a connection is identified: its number, the lowest byte first, and its UUID.
pub open spec fn identification(connection_idx: ConnectionIdx, uuid: ConnectionUuid) -> Seq<u8> {
    vstd::bytes::spec_u32_to_le_bytes(connection_idx.0) + uuid.bytes()
}

/// What the first twenty bytes of `buf` identify.
pub open spec fn identified(buf: Seq<u8>) -> (ConnectionIdx, ConnectionUuid) {
    (
        ConnectionIdx(vstd::bytes::spec_u32_from_le_bytes(buf.subrange(0, 4))),
        ConnectionUuid::of_bytes(buf.subrange(4, 20)),
    )
}

fn decode_identification(buf: &[u8]) -> (res: (ConnectionIdx, ConnectionUuid))
    requires
        buf@.len() >= 20,
    ensures
        res == identified(buf@),
{
    let connection_idx = ConnectionIdx(u32_from_le_bytes(slice_subrange(buf, 0, 4)));
    let uuid = ConnectionUuid::from_bytes(slice_subrange(buf, 4, 20));
    (connection_idx, uuid)
}

fn encode_identification(kind: u8, connection_idx: ConnectionIdx, uuid: ConnectionUuid) -> (res:
    ArrayVec<[u8; 21]>)
    ensures
        array_vec_items(res) == seq![kind] + identification(connection_idx, uuid),
{
    let mut buf = array_vec_new();
    array_vec_push(&mut buf, kind);
    array_vec_extend_from_slice(&mut buf, u32_to_le_bytes(connection_idx.0).as_slice());
    array_vec_extend_from_slice(&mut buf, uuid.as_bytes().as_slice());
    proof {
        assert(array_vec_items(buf) =~= seq![kind] + identification(connection_idx, uuid));
    }
    buf
}

/// Reading an identification back, behind a kind, gives one that is shifted by the kind: its number
/// starts with the kind, and its UUID with the last byte of the number.
pub proof fn lemma_identification_shifted(
    kind: u8,
    connection_idx: ConnectionIdx,
    uuid: ConnectionUuid,
)
    ensures
        ({
            let written = identification(connection_idx, uuid);
            let (read_idx, read_uuid) = identified(seq![kind] + written);
            &&& written.len() == 20
            &&& identification(read_idx, read_uuid) == seq![kind] + written.take(19)
        }),
{
    let written = identification(connection_idx, uuid);
    let buf = seq![kind] + written;
    vstd::bytes::lemma_auto_spec_u32_to_from_le_bytes();
    vstd::bytes::lemma_auto_spec_u128_to_from_le_bytes();
    let (read_idx, read_uuid) = identified(buf);
    assert(identification(read_idx, read_uuid) =~= buf.subrange(0, 4) + buf.subrange(4, 20));
    assert(buf.subrange(0, 4) + buf.subrange(4, 20) =~= seq![kind] + written.take(19));
}

/// An identification is read back as it was written only where every byte of it is the kind that
/// it stands behind.
pub proof fn lemma_identification_kept(
    kind: u8,
    connection_idx: ConnectionIdx,
    uuid: ConnectionUuid,
)
    ensures
        identified(seq![kind] + identification(connection_idx, uuid)) == (connection_idx, uuid)
            <==> (forall|i: int|
            0 <= i < 20 ==> #[trigger] identification(connection_idx, uuid)[i] == kind),
{
    let written = identification(connection_idx, uuid);
    let (read_idx, read_uuid) = identified(seq![kind] + written);
    let read = identification(read_idx, read_uuid);
    lemma_identification_shifted(kind, connection_idx, uuid);
    vstd::bytes::lemma_auto_spec_u32_to_from_le_bytes();
    vstd::bytes::lemma_auto_spec_u128_to_from_le_bytes();
    if read == written {
        assert forall|i: int| 0 <= i < 20 implies #[trigger] written[i] == kind by {
            lemma_shift_fixpoint(kind, written, i);
        }
    }
    if forall|i: int| 0 <= i < 20 ==> #[trigger] written[i] == kind {
        assert(read =~= written);
        assert(written.subrange(0, 4) =~= vstd::bytes::spec_u32_to_le_bytes(connection_idx.0));
        assert(written.subrange(4, 20) =~= uuid.bytes());
        assert((seq![kind] + written).subrange(0, 4) =~= written.subrange(0, 4));
        assert((seq![kind] + written).subrange(4, 20) =~= written.subrange(4, 20));
    }
}

/// Bytes that stay the same when `kind` is put before them are all `kind`.
proof fn lemma_shift_fixpoint(kind: u8, bytes: Seq<u8>, i: int)
    requires
        bytes.len() == 20,
        bytes == seq![kind] + bytes.take(19),
        0 <= i < 20,
    ensures
        bytes[i] == kind,
    decreases i,
{
    assert(bytes[i] == (seq![kind] + bytes.take(19))[i]);
    if i > 0 {
        lemma_shift_fixpoint(kind, bytes, i - 1);
    }
}

/// What a client reads of a message that a server wrote is of the same kind. It is the same message
/// where that has no fields, and where all of its bytes are its kind.
pub proof fn lemma_s2c_read_back(message: InternalS2C)
    ensures
        match message {
            InternalS2C::Connect(connection_idx, uuid) => {
                &&& InternalS2C::parse(message.bytes()) == Some(
                    InternalS2C::Connect(
                        identified(message.bytes()).0,
                        identified(message.bytes()).1,
                    ),
                )
                &&& InternalS2C::parse(message.bytes()) == Some(message) <==> (forall|i: int|
                    0 <= i < 20 ==> #[trigger] identification(connection_idx, uuid)[i] == 128)
            },
            _ => InternalS2C::parse(message.bytes()) == Some(message),
        },
{
    if let InternalS2C::Connect(connection_idx, uuid) = message {
        lemma_identification_shifted(128, connection_idx, uuid);
        lemma_identification_kept(128, connection_idx, uuid);
    }
}

/// What a server reads of a message that a client wrote is of the same kind. It is the same message
/// where that has no fields, and where all of its bytes are its kind.
pub proof fn lemma_c2s_read_back(message: InternalC2S)
    ensures
        match message {
            InternalC2S::ProvideId(connection_idx, uuid) => {
                &&& InternalC2S::parse(message.bytes()) == Some(
                    InternalC2S::ProvideId(
                        identified(message.bytes()).0,
                        identified(message.bytes()).1,
                    ),
                )
                &&& InternalC2S::parse(message.bytes()) == Some(message) <==> (forall|i: int|
                    0 <= i < 20 ==> #[trigger] identification(connection_idx, uuid)[i] == 130)
            },
            _ => InternalC2S::parse(message.bytes()) == Some(message),
        },
{
    if let InternalC2S::ProvideId(connection_idx, uuid) = message {
        lemma_identification_shifted(130, connection_idx, uuid);
        lemma_identification_kept(130, connection_idx, uuid);
    }
}

/// The packet that carries `payload` on channel `channel`.
pub open spec fn packet(channel: u8, payload: Seq<u8>) -> Seq<u8> {
    seq![channel] + payload
}

/// Puts the channel before a message.
pub fn encode_packet(channel_id: ChannelId, payload: &[u8]) -> (res: Vec<u8>)
    ensures
        res@ == packet(channel_id.number(), payload@),
        channel_id.number() <= MAX_CHANNEL_ID,
{
    let mut buf: Vec<u8> = Vec::new();
    buf.push(channel_id.value());
    buf.extend_from_slice(payload);
    assert(buf@ =~= packet(channel_id.number(), payload@));
    buf
}

/// The message that a packet carries: what stands behind its channel.
pub fn payload(buf: &[u8]) -> (res: &[u8])
    requires
        buf@.len() > 0,
    ensures
        res@ == buf@.skip(1),
{
    let res = slice_subrange(buf, 1, buf.len());
    assert(res@ =~= buf@.skip(1));
    res
}

/// A packet that carries a message is never taken for one that keeps a connection, nor the other
/// way round: the first byte tells them apart. What follows that byte is the message.
pub proof fn lemma_packets_told_apart(
    channel: u8,
    payload: Seq<u8>,
    s2c: InternalS2C,
    c2s: InternalC2S,
)
    requires
        channel <= MAX_CHANNEL_ID,
    ensures
        packet(channel, payload)[0] == channel,
        packet(channel, payload).skip(1) == payload,
        InternalS2C::parse(packet(channel, payload)) is None,
        InternalC2S::parse(packet(channel, payload)) is None,
        s2c.bytes().len() > 0 && s2c.bytes()[0] > MAX_CHANNEL_ID,
        c2s.bytes().len() > 0 && c2s.bytes()[0] > MAX_CHANNEL_ID,
{
    assert(packet(channel, payload).skip(1) =~= payload);
}

/// What a server sends about a connection, byte for byte. The answer that lets a client in holds the
/// number of the connection, the lowest byte first, and then its UUID.
pub proof fn lemma_s2c_layout(connection_idx: ConnectionIdx, uuid: ConnectionUuid)
    ensures
        ({
            let bytes = InternalS2C::Connect(connection_idx, uuid).bytes();
            &&& bytes.len() == 21
            &&& bytes[0] == 128
            &&& bytes.subrange(1, 5) == vstd::bytes::spec_u32_to_le_bytes(connection_idx.0)
            &&& bytes.subrange(5, 21) == vstd::bytes::spec_u128_to_le_bytes(uuid.0)
        }),
        InternalS2C::Disconnect.bytes() == seq![129u8],
        InternalS2C::RequestId.bytes() == seq![130u8],
{
    vstd::bytes::lemma_auto_spec_u32_to_from_le_bytes();
    vstd::bytes::lemma_auto_spec_u128_to_from_le_bytes();
    let bytes = InternalS2C::Connect(connection_idx, uuid).bytes();
    assert(bytes.subrange(1, 5) =~= vstd::bytes::spec_u32_to_le_bytes(connection_idx.0));
    assert(bytes.subrange(5, 21) =~= vstd::bytes::spec_u128_to_le_bytes(uuid.0));
}

/// What a client sends about its connection, byte for byte. What it shows to be recognised holds the
/// number of the connection, the lowest byte first, and then its UUID.
pub proof fn lemma_c2s_layout(connection_idx: ConnectionIdx, uuid: ConnectionUuid)
    ensures
        ({
            let bytes = InternalC2S::ProvideId(connection_idx, uuid).bytes();
            &&& bytes.len() == 21
            &&& bytes[0] == 130
            &&& bytes.subrange(1, 5) == vstd::bytes::spec_u32_to_le_bytes(connection_idx.0)
            &&& bytes.subrange(5, 21) == vstd::bytes::spec_u128_to_le_bytes(uuid.0)
        }),
        InternalC2S::Connect.bytes() == seq![128u8],
        InternalC2S::Disconnect.bytes() == seq![129u8],
{
    vstd::bytes::lemma_auto_spec_u32_to_from_le_bytes();
    vstd::bytes::lemma_auto_spec_u128_to_from_le_bytes();
    let bytes = InternalC2S::ProvideId(connection_idx, uuid).bytes();
    assert(bytes.subrange(1, 5) =~= vstd::bytes::spec_u32_to_le_bytes(connection_idx.0));
    assert(bytes.subrange(5, 21) =~= vstd::bytes::spec_u128_to_le_bytes(uuid.0));
}

/// What bytes mean to a client: the kind and the length decide, and bytes of any other kind or length
/// mean nothing.
pub proof fn lemma_s2c_understood(buf: Seq<u8>)
    ensures
        InternalS2C::parse(buf) matches Some(InternalS2C::Connect(connection_idx, uuid)) ==> {
            &&& connection_idx.0 == vstd::bytes::spec_u32_from_le_bytes(buf.subrange(0, 4))
            &&& uuid.0 == vstd::bytes::spec_u128_from_le_bytes(buf.subrange(4, 20))
        },
        buf.len() == 21 && buf[0] == 128 <==> (InternalS2C::parse(buf) matches Some(message)
            && message is Connect),
        buf == seq![129u8] <==> InternalS2C::parse(buf) == Some(InternalS2C::Disconnect),
        buf == seq![130u8] <==> InternalS2C::parse(buf) == Some(InternalS2C::RequestId),
{
    if buf.len() == 1 {
        assert(buf =~= seq![buf[0]]);
    }
}

/// What bytes mean to a server: the kind and the length decide, and bytes of any other kind or length
/// mean nothing.
pub proof fn lemma_c2s_understood(buf: Seq<u8>)
    ensures
        InternalC2S::parse(buf) matches Some(InternalC2S::ProvideId(connection_idx, uuid)) ==> {
            &&& connection_idx.0 == vstd::bytes::spec_u32_from_le_bytes(buf.subrange(0, 4))
            &&& uuid.0 == vstd::bytes::spec_u128_from_le_bytes(buf.subrange(4, 20))
        },
        buf == seq![128u8] <==> InternalC2S::parse(buf) == Some(InternalC2S::Connect),
        buf == seq![129u8] <==> InternalC2S::parse(buf) == Some(InternalC2S::Disconnect),
        buf.len() == 21 && buf[0] == 130 <==> (InternalC2S::parse(buf) matches Some(message)
            && message is ProvideId),
{
    if buf.len() == 1 {
        assert(buf =~= seq![buf[0]]);
    }
}

} // verus!
