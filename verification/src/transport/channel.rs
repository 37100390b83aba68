//! A transport inside one process. Packets go through queues.

use crate::transport::remotes::fill;
use crate::transport::{ClientTransportError, MaxPacketSize, TransportError, TransportProperties};
use vstd::prelude::*;

verus! {

/// What a transport through queues promises.
pub fn properties() -> (res: TransportProperties)
    ensures
        res.is_reliable,
        res.is_ordered,
        res.max_packet_size.size() == crate::transport::LARGEST_MAX_PACKET_SIZE,
{
    TransportProperties {
        is_reliable: true,
        is_ordered: true,
        max_packet_size: MaxPacketSize::max(),
    }
}

/// The number of a client.
#[derive(Debug, Clone, Copy, PartialEq, Eq, Hash, Structural)]
pub struct ConnectionId(pub u32);

/// Gives each client its number.
#[derive(Debug)]
pub struct ClientFactory {
    next_id: ConnectionId,
}

impl ClientFactory {
    /// The number of the next client.
    pub closed spec fn next(&self) -> u32 {
        self.next_id.0
    }

    pub fn new() -> (res: Self)
        ensures
            res.next() == 0,
    {
        ClientFactory { next_id: ConnectionId(0) }
    }

    /// Whether there is a number left for another client.
    pub fn can_create_client(&self) -> (res: bool)
        ensures
            res == (self.next() < u32::MAX),
    {
        self.next_id.0 < u32::MAX
    }

    /// The number for another client.
    pub fn create_client(&mut self) -> (res: ConnectionId)
        requires
            old(self).next() < u32::MAX,
        ensures
            res == ConnectionId(old(self).next()),
            final(self).next() == old(self).next() + 1,
    {
        let id = self.next_id;
        self.next_id = ConnectionId(id.0 + 1);
        id
    }
}

/// Takes what came out of the queue of a server into `buf`: as much of the packet as there is room
/// for. Where no client is left and none can come, the transport is gone.
pub fn server_receive<E>(queued: Option<(ConnectionId, Vec<u8>)>, buf: &mut [u8]) -> (res: Result<
    (usize, ConnectionId),
    TransportError<ConnectionId, E>,
>)
    ensures
        final(buf)@.len() == old(buf)@.len(),
        match queued {
            Some((id, data)) => {
                &&& res matches Ok((size, from))
                &&& from == id
                &&& filled(old(buf)@, final(buf)@, data@, size as int)
                &&& data@.len() <= old(buf)@.len() ==> size == data@.len() && final(buf)@.take(
                    size as int,
                ) == data@
            },
            None => {
                &&& res == Err::<(usize, ConnectionId), TransportError<ConnectionId, E>>(
                    TransportError::Disconnected,
                )
                &&& final(buf)@ == old(buf)@
            },
        },
{
    match queued {
        Some((id, data)) => {
            let size: usize = fill(buf, data.as_slice());
            proof {
                lemma_received_whole(old(buf)@, buf@, data@, size as int);
            }
            Ok((size, id))
        },
        None => Err(TransportError::Disconnected),
    }
}

/// Takes what came out of the queue of a client into `buf`: as much of the packet as there is room
/// for. Where the server is gone, so is the transport.
pub fn client_receive<E>(queued: Option<Vec<u8>>, buf: &mut [u8]) -> (res: Result<
    usize,
    ClientTransportError<E>,
>)
    ensures
        final(buf)@.len() == old(buf)@.len(),
        match queued {
            Some(data) => {
                &&& res matches Ok(size)
                &&& filled(old(buf)@, final(buf)@, data@, size as int)
                &&& data@.len() <= old(buf)@.len() ==> size == data@.len() && final(buf)@.take(
                    size as int,
                ) == data@
            },
            None => {
                &&& res == Err::<usize, ClientTransportError<E>>(
                    ClientTransportError::Disconnected,
                )
                &&& final(buf)@ == old(buf)@
            },
        },
{
    match queued {
        Some(data) => {
            let size: usize = fill(buf, data.as_slice());
            proof {
                lemma_received_whole(old(buf)@, buf@, data@, size as int);
            }
            Ok(size)
        },
        None => Err(ClientTransportError::Disconnected),
    }
}

/// `after` is `buf` with the first `size` bytes of `data` at its start, which is all of `data` if
/// there is room for it.
pub open spec fn filled(buf: Seq<u8>, after: Seq<u8>, data: Seq<u8>, size: int) -> bool {
    &&& size == if data.len() <= buf.len() {
        data.len()
    } else {
        buf.len()
    }
    &&& after == data.take(size) + buf.skip(size)
}

/// A packet that is no longer than the buffer is received whole, byte for byte. Of a longer one the
/// buffer holds as much as it has room for. What lies behind the packet in the buffer stays.
pub proof fn lemma_received_whole(buf: Seq<u8>, after: Seq<u8>, data: Seq<u8>, size: int)
    requires
        filled(buf, after, data, size),
    ensures
        after.len() == buf.len(),
        data.len() <= buf.len() ==> size == data.len() && after.take(data.len() as int) == data,
        data.len() > buf.len() ==> size == buf.len() && after == data.take(buf.len() as int),
        forall|i: int| 0 <= i < size ==> #[trigger] after[i] == data[i],
        forall|i: int| size <= i < buf.len() ==> #[trigger] after[i] == buf[i],
{
    if data.len() <= buf.len() {
        assert(after.take(data.len() as int) =~= data);
    } else {
        assert(after =~= data.take(buf.len() as int));
    }
}

/// What one side queues on a channel, the other side reads byte for byte: where the message and its
/// channel fit into the largest packet that the transport promises, and the buffer is as large as
/// that, the channel comes first and behind it the message, whole and with nothing after it.
pub proof fn lemma_message_crosses(
    properties: TransportProperties,
    channel: u8,
    payload: Seq<u8>,
    buf: Seq<u8>,
    after: Seq<u8>,
    size: int,
)
    requires
        buf.len() == properties.max_packet_size.size(),
        payload.len() + 1 <= properties.max_packet_size.size(),
        filled(buf, after, seq![channel] + payload, size),
    ensures
        size == payload.len() + 1,
        after[0] == channel,
        after.subrange(1, size) == payload,
{
    let packet = seq![channel] + payload;
    lemma_received_whole(buf, after, packet, size);
    assert forall|i: int| 0 <= i < payload.len() implies #[trigger] after.subrange(1, size)[i]
        == payload[i] by {
        assert(after[i + 1] == packet[i + 1]);
    }
    assert(after.subrange(1, size) =~= payload);
}

/// No two clients have the same number, whatever clients were made in between.
pub proof fn lemma_clients_told_apart(
    factories: Seq<ClientFactory>,
    ids: Seq<ConnectionId>,
    i: int,
    j: int,
)
    requires
        factories.len() == ids.len() + 1,
        forall|k: int|
            0 <= k < ids.len() ==> (#[trigger] ids[k]).0 == factories[k].next() && factories[k
                + 1].next() == factories[k].next() + 1,
        0 <= i < j < ids.len(),
    ensures
        ids[i] != ids[j],
{
    lemma_numbers_count_up(factories, ids, i);
    lemma_numbers_count_up(factories, ids, j);
}

/// The number of client `k` is `k` more than that of the first.
proof fn lemma_numbers_count_up(factories: Seq<ClientFactory>, ids: Seq<ConnectionId>, k: int)
    requires
        factories.len() == ids.len() + 1,
        forall|k: int|
            0 <= k < ids.len() ==> (#[trigger] ids[k]).0 == factories[k].next() && factories[k
                + 1].next() == factories[k].next() + 1,
        0 <= k < ids.len(),
    ensures
        ids[k].0 == ids[0].0 + k,
    decreases k,
{
    if k > 0 {
        lemma_numbers_count_up(factories, ids, k - 1);
        let last = ids[k - 1];
        assert(last.0 == factories[k - 1].next());
    }
}

} // verus!
