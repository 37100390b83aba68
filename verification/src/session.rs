//! What a server and a client can rely on from each other.
//!
//! Each proof follows a packet from the side that makes it to the side that it arrives at.

use crate::channel_id::ChannelId;
use crate::client;
use crate::client::runner::Runner as ClientRunner;
use crate::error::EncodeError;
use crate::handle::ConnectionIdx;
use crate::identity::ConnectionUuid;
use crate::message::ChannelConfig;
use crate::protocol::{self, InternalC2S, InternalS2C};
use crate::server;
use crate::server::runner::Runner as ServerRunner;
use std::hash::Hash;
use std::sync::Arc;
use vstd::prelude::*;

verus! {

/// A client that asks a server to be let in is connected: the server gives it the next connection and
/// answers, and the answer tells the client that it is in. Both users hear of it.
pub proof fn lemma_handshake<Id: Copy + Hash + Eq, C, D, F, G, E>(
    client: ClientRunner<C, F>,
    server: ServerRunner<Id, D, G>,
    id: Id,
    server_asked: ServerRunner<Id, D, G>,
    asked: server::runner::Received<Id, D, E>,
    connection: Arc<D>,
    uuid: ConnectionUuid,
    server_after: ServerRunner<Id, D, G>,
    client_after: ClientRunner<C, F>,
    answered: client::runner::Received<C, E>,
)
    requires
        server.wf(),
        !client.is_connected,
        !server.knows(id),
        server.received(server_asked, id, InternalC2S::Connect.bytes(), asked),
        server_asked.connected(server_after, id, connection, uuid),
        client.received(
            client_after,
            InternalS2C::Connect(ConnectionIdx(server.next_connection_idx), uuid).bytes(),
            answered,
        ),
    ensures
        asked is Connect,
        server_asked == server,
        server_asked.connect_actions::<E>(id, connection, uuid) == seq![
            server::runner::RunnerAction::<Id, D, E>::Send(
                id,
                InternalS2C::Connect(ConnectionIdx(server.next_connection_idx), uuid),
            ),
            server::runner::RunnerAction::Emit(
                server::InternEvent::IncomingConnection(
                    server.handle_of(server.next_connection_idx),
                    connection,
                ),
            ),
        ],
        server_after.knows(id),
        server_after.connections.by2()[id] == (server.next_connection_idx, (uuid, connection)),
        client_after.is_connected,
        client_after.is_alive == client.is_alive,
        answered.acts(
            seq![
                client::runner::RunnerAction::Emit(
                    client::InternEvent::Connected(client.connection),
                ),
            ],
        ),
{
    protocol::lemma_c2s_read_back(InternalC2S::Connect);
    protocol::lemma_s2c_read_back(
        InternalS2C::Connect(ConnectionIdx(server.next_connection_idx), uuid),
    );
}

/// What a client sends arrives at the server on the same channel, byte for byte, and is delivered to
/// the connection of that client. A server that does not know the client asks who it is instead.
pub proof fn lemma_client_to_server<Id: Copy + Hash + Eq, C, D, F, G, E, R>(
    client: ClientRunner<C, F>,
    client_after: ClientRunner<C, F>,
    channel_id: ChannelId,
    channel_config: ChannelConfig,
    payload: Vec<u8>,
    step: client::runner::TaskStep<C, E>,
    server: ServerRunner<Id, D, G>,
    server_after: ServerRunner<Id, D, G>,
    id: Id,
    res: server::runner::Received<Id, D, R>,
)
    requires
        server.wf(),
        channel_id.number() <= protocol::MAX_CHANNEL_ID,
        payload@.len() < client.properties.max_packet_size.size(),
        client.prepared(
            client_after,
            channel_id,
            channel_config,
            Ok::<Vec<u8>, EncodeError<E>>(payload),
            step,
        ),
        step matches client::runner::TaskStep::Transmit { packet, .. } ==> server.received(
            server_after,
            id,
            packet@,
            res,
        ),
    ensures
        step matches client::runner::TaskStep::Transmit { packet, .. } && packet@.skip(1)
            == payload@,
        server_after == server,
        server.knows(id) ==> (res matches server::runner::Received::Deliver {
            connection_idx,
            connection,
            channel_id: arrived_on,
        } && connection_idx.0 == server.connections.by2()[id].0 && connection
            == server.connections.by2()[id].1.1 && arrived_on.number() == channel_id.number()),
        !server.knows(id) ==> res.acts(
            seq![server::runner::RunnerAction::Send(id, InternalS2C::RequestId)],
        ),
{
    let channel = channel_id.number();
    protocol::lemma_packets_told_apart(
        channel,
        payload@,
        InternalS2C::Disconnect,
        InternalC2S::Disconnect,
    );
}

/// What a server sends arrives at a client that it has let in, on the same channel, byte for byte, and
/// is delivered to the connection of the client.
pub proof fn lemma_server_to_client<Id: Copy + Hash + Eq, C, D, F, G, E, R>(
    server: ServerRunner<Id, D, G>,
    server_after: ServerRunner<Id, D, G>,
    connection_idx: ConnectionIdx,
    channel_id: ChannelId,
    channel_config: ChannelConfig,
    payload: Vec<u8>,
    step: server::runner::TaskStep<Id, D, E>,
    client: ClientRunner<C, F>,
    client_after: ClientRunner<C, F>,
    res: client::runner::Received<C, R>,
)
    requires
        server.wf(),
        server.connections.by1().contains_key(connection_idx.0),
        client.is_connected,
        channel_id.number() <= protocol::MAX_CHANNEL_ID,
        payload@.len() < server.properties.max_packet_size.size(),
        server.prepared(
            server_after,
            connection_idx,
            channel_id,
            channel_config,
            Ok::<Vec<u8>, EncodeError<E>>(payload),
            step,
        ),
        step matches server::runner::TaskStep::Transmit { packet, .. } ==> client.received(
            client_after,
            packet@,
            res,
        ),
    ensures
        step matches server::runner::TaskStep::Transmit { id, packet, .. } && id
            == server.connections.by1()[connection_idx.0].0 && packet@.skip(1) == payload@,
        client_after == client,
        res matches client::runner::Received::Deliver { connection, channel_id: arrived_on }
            && connection == client.connection && arrived_on.number() == channel_id.number(),
{
    let channel = channel_id.number();
    protocol::lemma_packets_told_apart(
        channel,
        payload@,
        InternalS2C::Disconnect,
        InternalC2S::Disconnect,
    );
}

/// A client that leaves says goodbye first, and the goodbye has the server forget it and hear so.
pub proof fn lemma_client_leaves<Id: Copy + Hash + Eq, C, D, F, G, E, R>(
    server: ServerRunner<Id, D, G>,
    server_after: ServerRunner<Id, D, G>,
    id: Id,
    res: server::runner::Received<Id, D, R>,
)
    requires
        server.wf(),
        server.knows(id),
        server.received(server_after, id, InternalC2S::Disconnect.bytes(), res),
    ensures
        ClientRunner::<C, F>::stop_actions::<E>(true, None) == seq![
            client::runner::RunnerAction::<C, E>::Send(InternalC2S::Disconnect),
            client::runner::RunnerAction::Emit(client::InternEvent::Disconnected(None)),
        ],
        !server_after.knows(id),
        res.acts(
            seq![
                server::runner::RunnerAction::Cleanup(id),
                server::runner::RunnerAction::Emit(
                    server::InternEvent::Disconnected(
                        server.handle_of(server.connections.by2()[id].0),
                    ),
                ),
            ],
        ),
{
    protocol::lemma_c2s_read_back(InternalC2S::Disconnect);
    assert(ClientRunner::<C, F>::stop_actions::<E>(true, None) =~= seq![
        client::runner::RunnerAction::<C, E>::Send(InternalC2S::Disconnect),
        client::runner::RunnerAction::Emit(client::InternEvent::Disconnected(None)),
    ]);
}

/// A server that ends a connection says goodbye to its client and knows it no more, and the goodbye
/// ends the transport of the client, whether it has been let in or not, without an error.
pub proof fn lemma_server_dismisses<Id: Copy + Hash + Eq, C, D, F, G, E, R>(
    server: ServerRunner<Id, D, G>,
    server_after: ServerRunner<Id, D, G>,
    connection_idx: ConnectionIdx,
    client: ClientRunner<C, F>,
    client_after: ClientRunner<C, F>,
    res: client::runner::Received<C, R>,
)
    requires
        server.wf(),
        server.connections.by1().contains_key(connection_idx.0),
        server.dropped_connection(server_after, connection_idx),
        client.received(client_after, InternalS2C::Disconnect.bytes(), res),
    ensures
        ({
            let id = server.connections.by1()[connection_idx.0].0;
            &&& server.disconnect_actions::<E>(connection_idx, true) == seq![
                server::runner::RunnerAction::<Id, D, E>::Send(id, InternalS2C::Disconnect),
                server::runner::RunnerAction::Cleanup(id),
            ]
            &&& !server_after.knows(id)
            &&& !server_after.connections.by1().contains_key(connection_idx.0)
        }),
        client_after == client.stopped(),
        res.acts(
            seq![client::runner::RunnerAction::Emit(client::InternEvent::Disconnected(None))],
        ),
{
    protocol::lemma_s2c_read_back(InternalS2C::Disconnect);
}

} // verus!
