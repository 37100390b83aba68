//! One transport of a server: who is connected through it, and what is to be done with what
//! arrives and with what is to be sent.
//!
//! The transport itself is driven from outside. It hands in what it received, what is to be sent
//! and how that went, and carries out the actions that come back, in their order.

use crate::channel::Channels;
use crate::channel_id::ChannelId;
use crate::connection::ConnectionState;
use crate::double_key_map::DoubleKeyMap;
use crate::error::{DecodeError, EncodeError, NetworkError};
use crate::handle::{ConnectionHandle, ConnectionIdx, TransportIdx};
use crate::identity::ConnectionUuid;
use crate::message::{ChannelConfig, NetworkEncode};
use crate::protocol::{self, InternalC2S, InternalS2C};
use crate::server::InternEvent;
use crate::transport::{TransportError, TransportProperties};
use std::hash::Hash;
use std::sync::Arc;
use vstd::prelude::*;

verus! {

broadcast use vstd::std_specs::hash::group_hash_axioms;

/// What a server asks of one of its transports, with `M` for a message.
#[derive(Debug)]
pub enum RunnerTask<M> {
    SendTo {
        message: Arc<M>,
        connection_idx: ConnectionIdx,
        channel_id: ChannelId,
        channel_config: ChannelConfig,
    },
    Disconnect { connection_idx: ConnectionIdx, notify_client: bool },
}

/// Something to be done, with `Id` for how the transport tells its remotes apart.
#[derive(Debug)]
pub enum RunnerAction<Id, C, E> {
    /// Send a message to a remote. It does not matter if that fails.
    Send(Id, InternalS2C),
    /// Have the transport forget a remote.
    Cleanup(Id),
    /// Report to the server.
    Emit(InternEvent<C, E>),
}

/// What is to be done with a packet.
#[derive(Debug)]
pub enum Received<Id, C, E> {
    /// Decode what `protocol::payload` gives of the packet, on the channel of the connection, and
    /// hand in the outcome by `decoded`.
    Deliver { connection_idx: ConnectionIdx, connection: Arc<C>, channel_id: ChannelId },
    /// Make a connection and hand it in by `connect`.
    Connect,
    /// Carry out the actions, which may be none.
    Act(Vec<RunnerAction<Id, C, E>>),
}

impl<Id, C, E> Received<Id, C, E> {
    /// What is to be done are the actions `actions`.
    pub open spec fn acts(self, actions: Seq<RunnerAction<Id, C, E>>) -> bool {
        self matches Received::Act(list) && list@ =~= actions
    }
}

/// What is to be done for a task.
#[derive(Debug)]
pub enum TaskStep<Id, C, E> {
    /// Send the packet to the remote and hand in the outcome by `sent`.
    Transmit {
        id: Id,
        packet: Vec<u8>,
        connection_idx: ConnectionIdx,
        channel_config: ChannelConfig,
    },
    /// Carry out the actions, which may be none.
    Act(Vec<RunnerAction<Id, C, E>>),
}

impl<Id, C, E> TaskStep<Id, C, E> {
    /// What is to be done are the actions `actions`.
    pub open spec fn acts(self, actions: Seq<RunnerAction<Id, C, E>>) -> bool {
        self matches TaskStep::Act(list) && list@ =~= actions
    }
}

/// One transport of a server, with `F` for the decoders of its channels.
#[verifier::reject_recursive_types(Id)]
pub struct Runner<Id, C, F> {
    pub is_alive: bool,
    pub transport_idx: TransportIdx,
    pub properties: TransportProperties,
    /// The connections, found by their numbers and by their remotes.
    pub connections: DoubleKeyMap<u32, Id, (ConnectionUuid, Arc<C>)>,
    pub next_connection_idx: u32,
    pub channels: Arc<Channels<F>>,
}

impl<Id: Copy + Hash + Eq, C, F> Runner<Id, C, F> {
    pub open spec fn wf(&self) -> bool {
        self.connections.wf()
    }

    /// Nothing differs from `other` but the connections.
    pub open spec fn same_but_connections(&self, other: Self) -> bool {
        &&& self.is_alive == other.is_alive
        &&& self.transport_idx == other.transport_idx
        &&& self.properties == other.properties
        &&& self.next_connection_idx == other.next_connection_idx
        &&& self.channels == other.channels
    }

    /// The handle of connection `connection_idx`.
    pub open spec fn handle_of(&self, connection_idx: u32) -> ConnectionHandle {
        ConnectionHandle {
            transport_idx: self.transport_idx,
            connection_idx: ConnectionIdx(connection_idx),
        }
    }

    /// A remote is connected.
    pub open spec fn knows(&self, id: Id) -> bool {
        self.connections.by2().contains_key(id)
    }

    /// A transport that just starts, without connections.
    pub fn new(
        transport_idx: TransportIdx,
        properties: TransportProperties,
        channels: Arc<Channels<F>>,
    ) -> (res: Self)
        requires
            vstd::std_specs::hash::obeys_key_model::<Id>(),
            properties.is_ordered,
            properties.is_reliable,
        ensures
            res.wf(),
            res.is_alive,
            res.transport_idx == transport_idx,
            res.properties == properties,
            res.channels == channels,
            res.next_connection_idx == 0,
            res.numbers_given_out(),
            res.connections.by1() == Map::<u32, (Id, (ConnectionUuid, Arc<C>))>::empty(),
            res.connections.by2() == Map::<Id, (u32, (ConnectionUuid, Arc<C>))>::empty(),
    {
        Runner {
            is_alive: true,
            transport_idx,
            properties,
            connections: DoubleKeyMap::new(),
            next_connection_idx: 0,
            channels,
        }
    }

    fn handle(&self, connection_idx: u32) -> (res: ConnectionHandle)
        ensures
            res == self.handle_of(connection_idx),
    {
        ConnectionHandle {
            transport_idx: self.transport_idx,
            connection_idx: ConnectionIdx(connection_idx),
        }
    }

    /// The transport has started, or could not.
    pub fn started<E>(&mut self, result: Result<(), NetworkError<E>>) -> (res: InternEvent<C, E>)
        requires
            old(self).wf(),
        ensures
            final(self).wf(),
            *final(self) == (Runner { is_alive: old(self).is_alive && result is Ok, ..*old(self) }),
            res == match result {
                Ok(()) => InternEvent::<C, E>::TransportIsUp(old(self).transport_idx),
                Err(err) => InternEvent::<C, E>::DisconnectedSelf(Some(err)),
            },
    {
        match result {
            Ok(()) => InternEvent::TransportIsUp(self.transport_idx),
            Err(err) => {
                self.is_alive = false;
                InternEvent::DisconnectedSelf(Some(err))
            },
        }
    }

    /// Ends the transport and reports why.
    fn disconnect_self_and_stop<E>(&mut self, error: Option<NetworkError<E>>) -> (res: RunnerAction<
        Id,
        C,
        E,
    >)
        ensures
            *final(self) == (Runner { is_alive: false, ..*old(self) }),
            res == RunnerAction::<Id, C, E>::Emit(InternEvent::DisconnectedSelf(error)),
    {
        self.is_alive = false;
        RunnerAction::Emit(InternEvent::DisconnectedSelf(error))
    }

    /// Drops the connection of a remote, if there is one.
    fn drop_remote<E>(&mut self, id: Id) -> (res: Vec<RunnerAction<Id, C, E>>)
        requires
            old(self).wf(),
        ensures
            final(self).wf(),
            final(self).same_but_connections(*old(self)),
            old(self).dropped_remote(*final(self), id),
            res@ == old(self).drop_actions::<E>(id),
    {
        match self.connections.remove2(&id) {
            Some((connection_idx, _, _)) => vec![
                RunnerAction::Cleanup(id),
                RunnerAction::Emit(InternEvent::Disconnected(self.handle(connection_idx))),
            ],
            None => Vec::new(),
        }
    }

    /// The connection of remote `id` is gone in `after`, and no other.
    pub open spec fn dropped_remote(self, after: Self, id: Id) -> bool {
        if self.knows(id) {
            &&& after.connections.by1() == self.connections.by1().remove(
                self.connections.by2()[id].0,
            )
            &&& after.connections.by2() == self.connections.by2().remove(id)
        } else {
            after.connections == self.connections
        }
    }

    /// What is to be done when the connection of remote `id` is dropped.
    pub open spec fn drop_actions<E>(self, id: Id) -> Seq<RunnerAction<Id, C, E>> {
        if self.knows(id) {
            seq![
                RunnerAction::Cleanup(id),
                RunnerAction::Emit(
                    InternEvent::Disconnected(self.handle_of(self.connections.by2()[id].0)),
                ),
            ]
        } else {
            seq![]
        }
    }

    /// The transport could not receive.
    pub fn receive_failed<E>(&mut self, err: TransportError<Id, E>) -> (res: Vec<
        RunnerAction<Id, C, E>,
    >)
        requires
            old(self).wf(),
        ensures
            final(self).wf(),
            match err {
                TransportError::Disconnected => {
                    &&& *final(self) == (Runner { is_alive: false, ..*old(self) })
                    &&& res@ == seq![
                        RunnerAction::<Id, C, E>::Emit(InternEvent::DisconnectedSelf(None)),
                    ]
                },
                TransportError::RemoteDisconnected(id) => {
                    &&& final(self).same_but_connections(*old(self))
                    &&& old(self).dropped_remote(*final(self), id)
                    &&& res@ == old(self).drop_actions::<E>(id)
                },
                TransportError::TimedOut => {
                    &&& *final(self) == *old(self)
                    &&& res@ == Seq::<RunnerAction<Id, C, E>>::empty()
                },
                TransportError::Internal(err) => {
                    &&& *final(self) == *old(self)
                    &&& res@ == seq![
                        RunnerAction::<Id, C, E>::Emit(
                            InternEvent::Error(None, NetworkError::TransportReceive(err)),
                        ),
                    ]
                },
            },
    {
        match err {
            TransportError::Disconnected => vec![self.disconnect_self_and_stop(None)],
            TransportError::RemoteDisconnected(id) => self.drop_remote(id),
            TransportError::TimedOut => Vec::new(),
            TransportError::Internal(err) => vec![
                RunnerAction::Emit(InternEvent::Error(None, NetworkError::TransportReceive(err))),
            ],
        }
    }

    /// A packet has arrived from remote `id`.
    pub fn receive<E>(&mut self, id: Id, buf: &[u8]) -> (res: Received<Id, C, E>)
        requires
            old(self).wf(),
        ensures
            final(self).wf(),
            final(self).same_but_connections(*old(self)),
            old(self).received(*final(self), id, buf@, res),
    {
        if buf.len() == 0 {
            return Received::Act(Vec::new());
        }
        match self.connections.get2(&id) {
            Some((connection_idx, _, (_, connection))) => match ChannelId::try_new(buf[0]) {
                Some(channel_id) => Received::Deliver {
                    connection_idx: ConnectionIdx(*connection_idx),
                    connection: Arc::clone(connection),
                    channel_id,
                },
                None => match InternalC2S::decode(buf) {
                    Some(InternalC2S::Disconnect) => Received::Act(self.drop_remote(id)),
                    _ => Received::Act(Vec::new()),
                },
            },
            None => match InternalC2S::decode(buf) {
                Some(InternalC2S::Connect) => Received::Connect,
                Some(InternalC2S::Disconnect) => Received::Act(Vec::new()),
                Some(InternalC2S::ProvideId(connection_idx, uuid)) => {
                    self.rebind(id, connection_idx, uuid);
                    Received::Act(Vec::new())
                },
                None => Received::Act(vec![RunnerAction::Send(id, InternalS2C::RequestId)]),
            },
        }
    }

    /// What `receive` does to the connections, and what it returns.
    pub open spec fn received<E>(
        self,
        after: Self,
        id: Id,
        buf: Seq<u8>,
        res: Received<Id, C, E>,
    ) -> bool {
        let nothing = Seq::<RunnerAction<Id, C, E>>::empty();
        if buf.len() == 0 {
            after == self && res.acts(nothing)
        } else if self.knows(id) {
            if buf[0] <= protocol::MAX_CHANNEL_ID {
                let (connection_idx, (_, connection)) = self.connections.by2()[id];
                &&& after == self
                &&& res matches Received::Deliver {
                    connection_idx: to_idx,
                    connection: to,
                    channel_id,
                }
                &&& to_idx == ConnectionIdx(connection_idx)
                &&& to == connection
                &&& channel_id.number() == buf[0]
            } else if InternalC2S::parse(buf) == Some(InternalC2S::Disconnect) {
                self.dropped_remote(after, id) && res.acts(self.drop_actions(id))
            } else {
                after == self && res.acts(nothing)
            }
        } else {
            match InternalC2S::parse(buf) {
                Some(InternalC2S::Connect) => after == self && res is Connect,
                Some(InternalC2S::Disconnect) => after == self && res.acts(nothing),
                Some(InternalC2S::ProvideId(connection_idx, uuid)) => {
                    self.rebound(after, id, connection_idx, uuid) && res.acts(nothing)
                },
                None => after == self && res.acts(
                    seq![RunnerAction::Send(id, InternalS2C::RequestId)],
                ),
            }
        }
    }

    /// Moves a connection to remote `id`, if its UUID is the one that was shown.
    fn rebind(&mut self, id: Id, connection_idx: ConnectionIdx, uuid: ConnectionUuid)
        requires
            old(self).wf(),
            !old(self).knows(id),
        ensures
            final(self).wf(),
            final(self).same_but_connections(*old(self)),
            old(self).rebound(*final(self), id, connection_idx, uuid),
    {
        let idx: u32 = connection_idx.0;
        let connection = match self.connections.get1(&idx) {
            Some((_, _, (current_uuid, connection))) => if *current_uuid == uuid {
                Arc::clone(connection)
            } else {
                return ;
            },
            None => return ,
        };
        self.connections.insert(idx, id, (uuid, connection));
    }

    /// In `after` the connection that `connection_idx` and `uuid` identify, if there is one, belongs
    /// to remote `id` and no longer to the remote that had it. Nothing else has changed.
    pub open spec fn rebound(
        self,
        after: Self,
        id: Id,
        connection_idx: ConnectionIdx,
        uuid: ConnectionUuid,
    ) -> bool {
        let idx = connection_idx.0;
        if self.connections.by1().contains_key(idx) && self.connections.by1()[idx].1.0 == uuid {
            let (current_id, connection) = self.connections.by1()[idx];
            &&& after.connections.by1() == self.connections.by1().insert(idx, (id, connection))
            &&& after.connections.by2() == self.connections.by2().remove(current_id).insert(
                id,
                (idx, connection),
            )
        } else {
            after.connections == self.connections
        }
    }

    /// A connection for a remote that asks for one, on which nothing has arrived yet.
    pub fn new_connection<M>(&self) -> (res: ConnectionState<M, F>)
        ensures
            res.properties() == self.properties,
            res.sends() == self.channels.sends(),
            res.recvs() == self.channels.recvs(),
            forall|k: u8| #[trigger]
                res.waiting().contains_key(k) ==> res.waiting()[k] == Seq::<M>::empty(),
    {
        ConnectionState::new(self.properties, &*self.channels)
    }

    /// Connects remote `id` and makes up the UUID that it will be recognised by.
    pub fn connect<E>(&mut self, id: Id, connection: Arc<C>) -> (res: Vec<RunnerAction<Id, C, E>>)
        requires
            old(self).wf(),
        ensures
            final(self).wf(),
            exists|uuid: ConnectionUuid|
                {
                    &&& uuid.bytes()[6] & 0xf0 == 0x40
                    &&& uuid.bytes()[8] & 0xc0 == 0x80
                    &&& #[trigger] old(self).connected(*final(self), id, connection, uuid)
                    &&& res@ == old(self).connect_actions::<E>(id, connection, uuid)
                },
    {
        self.connect_as(id, connection, ConnectionUuid::fresh())
    }

    /// Connects remote `id`, which will be recognised by `uuid`.
    pub fn connect_as<E>(&mut self, id: Id, connection: Arc<C>, uuid: ConnectionUuid) -> (res: Vec<
        RunnerAction<Id, C, E>,
    >)
        requires
            old(self).wf(),
        ensures
            final(self).wf(),
            old(self).connected(*final(self), id, connection, uuid),
            res@ == old(self).connect_actions::<E>(id, connection, uuid),
    {
        let connection_idx: u32 = self.next_connection_idx;
        self.next_connection_idx = connection_idx.wrapping_add(1);
        self.connections.insert(connection_idx, id, (uuid, Arc::clone(&connection)));
        vec![
            RunnerAction::Send(id, InternalS2C::Connect(ConnectionIdx(connection_idx), uuid)),
            RunnerAction::Emit(
                InternEvent::IncomingConnection(self.handle(connection_idx), connection),
            ),
        ]
    }

    /// In `after` remote `id` has the next connection, and nothing else has changed. The numbers of
    /// connections start over once they have run out, and a connection gives way to another that
    /// gets its number.
    pub open spec fn connected(
        self,
        after: Self,
        id: Id,
        connection: Arc<C>,
        uuid: ConnectionUuid,
    ) -> bool {
        let idx = self.next_connection_idx;
        &&& after.is_alive == self.is_alive
        &&& after.transport_idx == self.transport_idx
        &&& after.properties == self.properties
        &&& after.channels == self.channels
        &&& after.next_connection_idx == if idx < u32::MAX {
            idx + 1
        } else {
            0
        }
        &&& after.connections.by1() == self.connections.by1_without(id).insert(
            idx,
            (id, (uuid, connection)),
        )
        &&& after.connections.by2() == self.connections.by2_without(idx).insert(
            id,
            (idx, (uuid, connection)),
        )
    }

    /// What is to be done when remote `id` is connected: it is told, and the server is.
    pub open spec fn connect_actions<E>(
        self,
        id: Id,
        connection: Arc<C>,
        uuid: ConnectionUuid,
    ) -> Seq<RunnerAction<Id, C, E>> {
        let idx = self.next_connection_idx;
        seq![
            RunnerAction::Send(id, InternalS2C::Connect(ConnectionIdx(idx), uuid)),
            RunnerAction::Emit(InternEvent::IncomingConnection(self.handle_of(idx), connection)),
        ]
    }

    /// A message from remote `id` has been decoded, or could not be. Where a message is lost for good
    /// though it must not be lost, the transport forgets the remote and the server is told that the
    /// connection has ended. It stays in the table all the same.
    pub fn decoded<E>(
        &self,
        id: Id,
        connection_idx: ConnectionIdx,
        channel_id: ChannelId,
        outcome: Option<Result<(), DecodeError<E>>>,
    ) -> (res: Vec<RunnerAction<Id, C, E>>)
        ensures
            res@ == match outcome {
                Some(Err(err)) => {
                    let handle = self.handle_of(connection_idx.0);
                    if self.properties.is_reliable && self.channels.reliable(channel_id.number()) {
                        seq![
                            RunnerAction::<Id, C, E>::Cleanup(id),
                            RunnerAction::Emit(InternEvent::Disconnected(handle)),
                        ]
                    } else {
                        seq![
                            RunnerAction::<Id, C, E>::Emit(
                                InternEvent::Error(Some(handle), NetworkError::Decode(err)),
                            ),
                        ]
                    }
                },
                _ => Seq::<RunnerAction<Id, C, E>>::empty(),
            },
    {
        match outcome {
            Some(Err(err)) => {
                let handle = self.handle(connection_idx.0);
                if self.properties.is_reliable && self.channels.is_reliable(channel_id) {
                    vec![
                        RunnerAction::Cleanup(id),
                        RunnerAction::Emit(InternEvent::Disconnected(handle)),
                    ]
                } else {
                    vec![
                        RunnerAction::Emit(
                            InternEvent::Error(Some(handle), NetworkError::Decode(err)),
                        ),
                    ]
                }
            },
            Some(Ok(())) => Vec::new(),
            None => Vec::new(),
        }
    }

    /// Starts on a task of the server.
    pub fn start_task<M: NetworkEncode>(&mut self, task: RunnerTask<M>) -> (res: TaskStep<
        Id,
        C,
        M::Error,
    >)
        requires
            old(self).wf(),
        ensures
            final(self).wf(),
            match task {
                RunnerTask::SendTo { message, connection_idx, channel_id, channel_config } => {
                    if old(self).connections.by1().contains_key(connection_idx.0) {
                        exists|encoded: Result<Vec<u8>, EncodeError<M::Error>>|
                            {
                                &&& #[trigger] call_ensures(M::encode, (&*message,), encoded)
                                &&& old(self).prepared(
                                    *final(self),
                                    connection_idx,
                                    channel_id,
                                    channel_config,
                                    encoded,
                                    res,
                                )
                            }
                    } else {
                        &&& *final(self) == *old(self)
                        &&& res.acts(seq![])
                    }
                },
                RunnerTask::Disconnect { connection_idx, notify_client } => {
                    &&& final(self).same_but_connections(*old(self))
                    &&& old(self).dropped_connection(*final(self), connection_idx)
                    &&& res.acts(
                        old(self).disconnect_actions::<M::Error>(connection_idx, notify_client),
                    )
                },
            },
    {
        match task {
            RunnerTask::SendTo { message, connection_idx, channel_id, channel_config } => {
                let idx: u32 = connection_idx.0;
                match self.connections.get1(&idx) {
                    None => TaskStep::Act(Vec::new()),
                    Some(_) => {
                        let encoded = message.encode();
                        self.prepare(connection_idx, channel_id, channel_config, encoded)
                    },
                }
            },
            RunnerTask::Disconnect { connection_idx, notify_client } => {
                let idx: u32 = connection_idx.0;
                match self.connections.remove1(&idx) {
                    Some((_, id, _)) => {
                        let mut actions: Vec<RunnerAction<Id, C, M::Error>> = Vec::new();
                        if notify_client {
                            actions.push(RunnerAction::Send(id, InternalS2C::Disconnect));
                        }
                        actions.push(RunnerAction::Cleanup(id));
                        TaskStep::Act(actions)
                    },
                    None => TaskStep::Act(Vec::new()),
                }
            },
        }
    }

    /// Connection `connection_idx` is gone in `after`, and no other.
    pub open spec fn dropped_connection(self, after: Self, connection_idx: ConnectionIdx) -> bool {
        let idx = connection_idx.0;
        if self.connections.by1().contains_key(idx) {
            &&& after.connections.by1() == self.connections.by1().remove(idx)
            &&& after.connections.by2() == self.connections.by2().remove(
                self.connections.by1()[idx].0,
            )
        } else {
            after.connections == self.connections
        }
    }

    /// What is to be done when the server ends connection `connection_idx`.
    pub open spec fn disconnect_actions<E>(
        self,
        connection_idx: ConnectionIdx,
        notify_client: bool,
    ) -> Seq<RunnerAction<Id, C, E>> {
        if self.connections.by1().contains_key(connection_idx.0) {
            let id = self.connections.by1()[connection_idx.0].0;
            if notify_client {
                seq![
                    RunnerAction::Send(id, InternalS2C::Disconnect),
                    RunnerAction::Cleanup(id),
                ]
            } else {
                seq![RunnerAction::Cleanup(id)]
            }
        } else {
            seq![]
        }
    }

    /// Makes a packet of an encoded message. A message that is too large for a packet, or could not
    /// be encoded, ends the transport.
    pub fn prepare<E>(
        &mut self,
        connection_idx: ConnectionIdx,
        channel_id: ChannelId,
        channel_config: ChannelConfig,
        encoded: Result<Vec<u8>, EncodeError<E>>,
    ) -> (res: TaskStep<Id, C, E>)
        requires
            old(self).wf(),
            old(self).connections.by1().contains_key(connection_idx.0),
        ensures
            final(self).wf(),
            old(self).prepared(
                *final(self),
                connection_idx,
                channel_id,
                channel_config,
                encoded,
                res,
            ),
    {
        let idx: u32 = connection_idx.0;
        match encoded {
            Ok(payload) => {
                if payload.len() > protocol::max_payload_size(self.properties.max_packet_size) {
                    return TaskStep::Act(vec![self.disconnect_self_and_stop(None)]);
                }
                match self.connections.get1(&idx) {
                    Some((_, id, _)) => TaskStep::Transmit {
                        id: *id,
                        packet: protocol::encode_packet(channel_id, payload.as_slice()),
                        connection_idx,
                        channel_config,
                    },
                    None => TaskStep::Act(Vec::new()),
                }
            },
            Err(err) => TaskStep::Act(
                vec![self.disconnect_self_and_stop(Some(NetworkError::from(err)))],
            ),
        }
    }

    /// What `prepare` does to the transport, and what it returns.
    pub open spec fn prepared<E>(
        self,
        after: Self,
        connection_idx: ConnectionIdx,
        channel_id: ChannelId,
        channel_config: ChannelConfig,
        encoded: Result<Vec<u8>, EncodeError<E>>,
        res: TaskStep<Id, C, E>,
    ) -> bool {
        let stopped = Runner { is_alive: false, ..self };
        match encoded {
            Ok(payload) => if payload@.len() < self.properties.max_packet_size.size() {
                &&& after == self
                &&& res matches TaskStep::Transmit {
                    id,
                    packet,
                    connection_idx: sent_to,
                    channel_config: sent_with,
                }
                &&& id == self.connections.by1()[connection_idx.0].0
                &&& packet@ == protocol::packet(channel_id.number(), payload@)
                &&& sent_to == connection_idx
                &&& sent_with == channel_config
            } else {
                &&& after == stopped
                &&& res.acts(seq![RunnerAction::Emit(InternEvent::DisconnectedSelf(None))])
            },
            Err(err) => {
                &&& after == stopped
                &&& res.acts(
                    seq![
                        RunnerAction::Emit(
                            InternEvent::DisconnectedSelf(Some(NetworkError::Encode(err))),
                        ),
                    ],
                )
            },
        }
    }

    /// A packet has been sent on connection `connection_idx`, or could not be. A packet that is lost
    /// though it must not be lost ends the transport.
    pub fn sent<E>(
        &mut self,
        connection_idx: ConnectionIdx,
        channel_config: ChannelConfig,
        result: Result<(), TransportError<(), E>>,
    ) -> (res: Vec<RunnerAction<Id, C, E>>)
        requires
            old(self).wf(),
        ensures
            final(self).wf(),
            match result {
                Ok(()) => {
                    &&& *final(self) == *old(self)
                    &&& res@ == Seq::<RunnerAction<Id, C, E>>::empty()
                },
                Err(TransportError::Disconnected) => {
                    &&& *final(self) == (Runner { is_alive: false, ..*old(self) })
                    &&& res@ == seq![
                        RunnerAction::<Id, C, E>::Emit(InternEvent::DisconnectedSelf(None)),
                    ]
                },
                Err(TransportError::RemoteDisconnected(())) => {
                    let idx = connection_idx.0;
                    &&& final(self).same_but_connections(*old(self))
                    &&& old(self).dropped_connection(*final(self), connection_idx)
                    &&& res@ == if old(self).connections.by1().contains_key(idx) {
                        seq![
                            RunnerAction::<Id, C, E>::Cleanup(old(self).connections.by1()[idx].0),
                            RunnerAction::Emit(
                                InternEvent::Disconnected(old(self).handle_of(idx)),
                            ),
                        ]
                    } else {
                        Seq::<RunnerAction<Id, C, E>>::empty()
                    }
                },
                Err(TransportError::TimedOut) => if channel_config.reliable {
                    &&& *final(self) == (Runner { is_alive: false, ..*old(self) })
                    &&& res@ == seq![
                        RunnerAction::<Id, C, E>::Emit(InternEvent::DisconnectedSelf(None)),
                    ]
                } else {
                    &&& *final(self) == *old(self)
                    &&& res@ == Seq::<RunnerAction<Id, C, E>>::empty()
                },
                Err(TransportError::Internal(err)) => {
                    let report = RunnerAction::<Id, C, E>::Emit(
                        InternEvent::Error(
                            Some(old(self).handle_of(connection_idx.0)),
                            NetworkError::TransportSend(err),
                        ),
                    );
                    if channel_config.reliable {
                        &&& *final(self) == (Runner { is_alive: false, ..*old(self) })
                        &&& res@ == seq![
                            report,
                            RunnerAction::<Id, C, E>::Emit(InternEvent::DisconnectedSelf(None)),
                        ]
                    } else {
                        &&& *final(self) == *old(self)
                        &&& res@ == seq![report]
                    }
                },
            },
    {
        let err = match result {
            Ok(()) => return Vec::new(),
            Err(err) => err,
        };
        match err {
            TransportError::Disconnected => vec![self.disconnect_self_and_stop(None)],
            TransportError::RemoteDisconnected(()) => {
                let idx: u32 = connection_idx.0;
                match self.connections.remove1(&idx) {
                    Some((_, id, _)) => vec![
                        RunnerAction::Cleanup(id),
                        RunnerAction::Emit(InternEvent::Disconnected(self.handle(idx))),
                    ],
                    None => Vec::new(),
                }
            },
            TransportError::TimedOut => {
                let mut actions: Vec<RunnerAction<Id, C, E>> = Vec::new();
                if channel_config.reliable {
                    actions.push(self.disconnect_self_and_stop(None));
                }
                actions
            },
            TransportError::Internal(err) => {
                let mut actions: Vec<RunnerAction<Id, C, E>> = Vec::new();
                actions.push(
                    RunnerAction::Emit(
                        InternEvent::Error(
                            Some(self.handle(connection_idx.0)),
                            NetworkError::TransportSend(err),
                        ),
                    ),
                );
                if channel_config.reliable {
                    actions.push(self.disconnect_self_and_stop(None));
                }
                actions
            },
        }
    }

    /// The server has let go of the transport: no more tasks will come.
    pub fn tasks_closed(&mut self)
        ensures
            *final(self) == (Runner { is_alive: false, ..*old(self) }),
    {
        self.is_alive = false;
    }

    /// Every connection has a number that was given out before, while the numbers have not run out.
    pub open spec fn numbers_given_out(&self) -> bool {
        forall|idx: u32| #[trigger]
            self.connections.by1().contains_key(idx) ==> idx < self.next_connection_idx
    }

    /// What a client sends on a channel arrives on that channel as it was sent, at the connection
    /// of that client, and changes nothing.
    pub proof fn lemma_message_arrives<E>(
        self,
        after: Self,
        id: Id,
        channel: u8,
        payload: Seq<u8>,
        res: Received<Id, C, E>,
    )
        requires
            self.wf(),
            self.knows(id),
            channel <= protocol::MAX_CHANNEL_ID,
            self.received(after, id, protocol::packet(channel, payload), res),
        ensures
            after == self,
            res matches Received::Deliver { connection_idx, connection, channel_id }
                && connection_idx == ConnectionIdx(self.connections.by2()[id].0) && connection
                == self.connections.by2()[id].1.1 && channel_id.number() == channel,
            protocol::packet(channel, payload).skip(1) == payload,
    {
        protocol::lemma_packets_told_apart(
            channel,
            payload,
            InternalS2C::Disconnect,
            InternalC2S::Disconnect,
        );
    }

    /// Whoever is not connected gets a connection by asking for one. The others are asked who they
    /// are when they send a message, and are not heard.
    pub proof fn lemma_stranger<E>(
        self,
        after: Self,
        id: Id,
        channel: u8,
        payload: Seq<u8>,
        res: Received<Id, C, E>,
    )
        requires
            self.wf(),
            !self.knows(id),
            channel <= protocol::MAX_CHANNEL_ID,
        ensures
            self.received(after, id, InternalC2S::Connect.bytes(), res) ==> after == self
                && res is Connect,
            self.received(after, id, protocol::packet(channel, payload), res) ==> after == self
                && res.acts(seq![RunnerAction::Send(id, InternalS2C::RequestId)]),
    {
        protocol::lemma_packets_told_apart(
            channel,
            payload,
            InternalS2C::Disconnect,
            InternalC2S::Disconnect,
        );
    }

    /// A client that says goodbye is disconnected: the server is told so, and asking again to be
    /// disconnected has no effect.
    pub proof fn lemma_goodbye<E>(
        self,
        after: Self,
        later: Self,
        id: Id,
        res: Received<Id, C, E>,
        res_later: Received<Id, C, E>,
    )
        requires
            self.wf(),
            self.knows(id),
            self.received(after, id, InternalC2S::Disconnect.bytes(), res),
            after.received(later, id, InternalC2S::Disconnect.bytes(), res_later),
        ensures
            !after.knows(id),
            res.acts(
                seq![
                    RunnerAction::Cleanup(id),
                    RunnerAction::Emit(
                        InternEvent::Disconnected(self.handle_of(self.connections.by2()[id].0)),
                    ),
                ],
            ),
            later == after,
            res_later.acts(seq![]),
    {
        protocol::lemma_c2s_read_back(InternalC2S::Disconnect);
    }

    /// A remote that has been connected is known, by the number that it and the server were told,
    /// and takes its number and its place from nobody while the numbers have not run out.
    pub proof fn lemma_connect_displaces_nobody(
        self,
        after: Self,
        id: Id,
        connection: Arc<C>,
        uuid: ConnectionUuid,
    )
        requires
            self.wf(),
            !self.knows(id),
            self.numbers_given_out(),
            self.next_connection_idx < u32::MAX,
            self.connected(after, id, connection, uuid),
        ensures
            after.numbers_given_out(),
            after.knows(id),
            after.connections.by2()[id] == (self.next_connection_idx, (uuid, connection)),
            self.connections.by1().submap_of(after.connections.by1()),
            self.connections.by2().submap_of(after.connections.by2()),
    {
        let idx = self.next_connection_idx;
        assert(!self.connections.by1().contains_key(idx));
    }

    /// Nothing that arrives or is asked for makes up a number for a connection.
    pub proof fn lemma_numbers_stay_given_out<E>(
        self,
        after: Self,
        id: Id,
        buf: Seq<u8>,
        res: Received<Id, C, E>,
        connection_idx: ConnectionIdx,
    )
        requires
            self.wf(),
            self.numbers_given_out(),
            after.same_but_connections(self),
            self.received(after, id, buf, res) || self.dropped_remote(after, id)
                || self.dropped_connection(after, connection_idx),
        ensures
            after.numbers_given_out(),
    {
    }

    /// A client that shows the number and the UUID of its connection from a new address keeps the
    /// connection there, and has it no longer at the old one.
    pub proof fn lemma_rebind_moves(
        self,
        after: Self,
        id: Id,
        connection_idx: ConnectionIdx,
        uuid: ConnectionUuid,
    )
        requires
            self.wf(),
            !self.knows(id),
            self.connections.by1().contains_key(connection_idx.0),
            self.connections.by1()[connection_idx.0].1.0 == uuid,
            self.rebound(after, id, connection_idx, uuid),
        ensures
            after.knows(id),
            after.connections.by2()[id] == (
                connection_idx.0,
                self.connections.by1()[connection_idx.0].1,
            ),
            !after.knows(self.connections.by1()[connection_idx.0].0),
    {
        self.connections.lemma_keys_agree();
    }

    /// What is the same where nothing differs but the connections: the transport, whether it is alive,
    /// what it promises, its channels and the number of the next connection.
    pub proof fn lemma_only_connections_differ(self, other: Self)
        requires
            self.same_but_connections(other),
        ensures
            self.is_alive == other.is_alive,
            self.transport_idx == other.transport_idx,
            self.properties == other.properties,
            self.next_connection_idx == other.next_connection_idx,
            self.channels == other.channels,
    {
    }

    /// When a remote leaves, it is known no more, neither by its address nor by its number. Every other
    /// remote keeps its number, its UUID and its connection, and every other number its remote. Nobody
    /// new is known.
    pub proof fn lemma_leaving_keeps_others(self, after: Self, id: Id)
        requires
            self.wf(),
            self.dropped_remote(after, id),
        ensures
            !after.connections.by2().contains_key(id),
            forall|other: Id|
                other != id ==> (#[trigger] after.connections.by2().contains_key(other)
                    <==> self.connections.by2().contains_key(other)),
            forall|other: Id|
                other != id && self.connections.by2().contains_key(other)
                    ==> #[trigger] after.connections.by2()[other]
                    == self.connections.by2()[other],
            forall|idx: u32| #[trigger]
                after.connections.by1().contains_key(idx) <==> self.connections.by1().contains_key(
                    idx,
                ) && self.connections.by1()[idx].0 != id,
            forall|idx: u32|
                after.connections.by1().contains_key(idx) ==> #[trigger] after.connections.by1()[idx]
                    == self.connections.by1()[idx],
    {
        self.connections.lemma_keys_agree();
    }

    /// When a remote leaves, the transport is told to forget it and then the server is told which
    /// connection has ended. When a stranger leaves, nobody is told anything.
    pub proof fn lemma_leaving_is_told<E>(self, id: Id)
        requires
            self.wf(),
        ensures
            self.connections.by2().contains_key(id) ==> self.drop_actions::<E>(id) == seq![
                RunnerAction::<Id, C, E>::Cleanup(id),
                RunnerAction::Emit(
                    InternEvent::Disconnected(
                        ConnectionHandle {
                            transport_idx: self.transport_idx,
                            connection_idx: ConnectionIdx(self.connections.by2()[id].0),
                        },
                    ),
                ),
            ],
            !self.connections.by2().contains_key(id) ==> self.drop_actions::<E>(id).len() == 0,
    {
    }

    /// The goodbye of a remote that is connected, one byte long, ends its connection and no other, and is
    /// told. The goodbye of a stranger changes nothing.
    pub proof fn lemma_goodbye_ends_one<E>(self, after: Self, id: Id, res: Received<Id, C, E>)
        requires
            self.wf(),
            after.same_but_connections(self),
            self.received(after, id, seq![129u8], res),
        ensures
            after.is_alive == self.is_alive,
            after.next_connection_idx == self.next_connection_idx,
            !after.connections.by2().contains_key(id),
            forall|other: Id|
                other != id ==> (#[trigger] after.connections.by2().contains_key(other)
                    <==> self.connections.by2().contains_key(other)),
            forall|other: Id|
                other != id && self.connections.by2().contains_key(other)
                    ==> #[trigger] after.connections.by2()[other]
                    == self.connections.by2()[other],
            forall|idx: u32|
                self.connections.by1().contains_key(idx) && self.connections.by1()[idx].0 != id
                    ==> #[trigger] after.connections.by1().contains_key(idx)
                    && after.connections.by1()[idx] == self.connections.by1()[idx],
            self.connections.by2().contains_key(id) ==> (res matches Received::Act(actions)
                && actions@ == seq![
                RunnerAction::<Id, C, E>::Cleanup(id),
                RunnerAction::Emit(
                    InternEvent::Disconnected(
                        ConnectionHandle {
                            transport_idx: self.transport_idx,
                            connection_idx: ConnectionIdx(self.connections.by2()[id].0),
                        },
                    ),
                ),
            ]),
            !self.connections.by2().contains_key(id) ==> (res matches Received::Act(actions)
                && actions@.len() == 0),
    {
        if self.connections.by2().contains_key(id) {
            self.lemma_leaving_keeps_others(after, id);
            self.lemma_leaving_is_told::<E>(id);
        }
    }

    /// Whatever arrives from a remote that is connected, but for its goodbye, changes nothing. If it
    /// names a channel it is delivered to the connection of the remote, on that channel. If not, nothing
    /// is done. An empty packet does nothing, whoever sends it.
    pub proof fn lemma_heard_from_the_connected<E>(
        self,
        after: Self,
        id: Id,
        buf: Seq<u8>,
        res: Received<Id, C, E>,
    )
        requires
            self.wf(),
            buf.len() == 0 || self.connections.by2().contains_key(id),
            buf != seq![129u8],
            self.received(after, id, buf, res),
        ensures
            after == self,
            buf.len() > 0 && buf[0] <= 127 ==> (res matches Received::Deliver {
                connection_idx,
                connection,
                channel_id,
            } && connection_idx.0 == self.connections.by2()[id].0 && connection
                == self.connections.by2()[id].1.1 && channel_id.number() == buf[0]),
            buf.len() == 0 || buf[0] > 127 ==> (res matches Received::Act(actions)
                && actions@.len() == 0),
    {
        if buf.len() == 1 {
            assert(buf =~= seq![buf[0]]);
        }
    }

    /// A stranger is let in by the one byte that asks for it, and by nothing else. A packet of the kind
    /// and the length for it shows who the stranger is, by its first twenty bytes. Nothing is asked in
    /// return, and unless they name a connection and its UUID nothing changes. Whatever else a stranger
    /// sends, but for a goodbye, changes nothing, and it is asked who it is.
    pub proof fn lemma_heard_from_strangers<E>(
        self,
        after: Self,
        id: Id,
        buf: Seq<u8>,
        res: Received<Id, C, E>,
    )
        requires
            self.wf(),
            buf.len() > 0,
            !self.connections.by2().contains_key(id),
            buf != seq![129u8],
            self.received(after, id, buf, res),
        ensures
            res is Connect <==> buf == seq![128u8],
            !(buf.len() == 21 && buf[0] == 130) ==> after == self,
            buf.len() == 21 && buf[0] == 130 ==> (res matches Received::Act(actions)
                && actions@.len() == 0),
            buf.len() == 21 && buf[0] == 130 ==> {
                let idx = vstd::bytes::spec_u32_from_le_bytes(buf.subrange(0, 4));
                let uuid = vstd::bytes::spec_u128_from_le_bytes(buf.subrange(4, 20));
                !(self.connections.by1().contains_key(idx) && self.connections.by1()[idx].1.0.0
                    == uuid) ==> after.connections == self.connections
            },
            buf != seq![128u8] && !(buf.len() == 21 && buf[0] == 130) ==> (res
                matches Received::Act(actions) && actions@ == seq![
                RunnerAction::<Id, C, E>::Send(id, InternalS2C::RequestId),
            ]),
    {
        if buf.len() == 1 {
            assert(buf =~= seq![buf[0]]);
        }
    }

    /// A stranger that shows the number and the UUID of a connection takes it over: the connection, with
    /// its number and UUID, is then that of the stranger and no longer that of the remote that had it.
    /// Everybody else keeps what they have.
    pub proof fn lemma_taken_over<E>(
        self,
        after: Self,
        id: Id,
        buf: Seq<u8>,
        res: Received<Id, C, E>,
        idx: u32,
        uuid: ConnectionUuid,
    )
        requires
            self.wf(),
            !self.connections.by2().contains_key(id),
            buf.len() == 21,
            buf[0] == 130,
            idx == vstd::bytes::spec_u32_from_le_bytes(buf.subrange(0, 4)),
            uuid.0 == vstd::bytes::spec_u128_from_le_bytes(buf.subrange(4, 20)),
            self.connections.by1().contains_key(idx),
            self.connections.by1()[idx].1.0 == uuid,
            self.received(after, id, buf, res),
        ensures
            after.connections.by2().contains_key(id),
            after.connections.by2()[id] == (idx, self.connections.by1()[idx].1),
            after.connections.by1().contains_key(idx),
            after.connections.by1()[idx] == (id, self.connections.by1()[idx].1),
            !after.connections.by2().contains_key(self.connections.by1()[idx].0),
            forall|other: Id|
                other != id && other != self.connections.by1()[idx].0 ==> (
                #[trigger] after.connections.by2().contains_key(other)
                    <==> self.connections.by2().contains_key(other)),
            forall|other: Id|
                other != id && other != self.connections.by1()[idx].0
                    && self.connections.by2().contains_key(other)
                    ==> #[trigger] after.connections.by2()[other]
                    == self.connections.by2()[other],
            forall|other: u32|
                other != idx ==> (#[trigger] after.connections.by1().contains_key(other)
                    <==> self.connections.by1().contains_key(other)),
            forall|other: u32|
                other != idx && self.connections.by1().contains_key(other)
                    ==> #[trigger] after.connections.by1()[other]
                    == self.connections.by1()[other],
    {
        self.connections.lemma_keys_agree();
    }

    /// A remote that is connected gets the next number, with the connection and the UUID made for it.
    /// Remotes and numbers other than these two keep what they have, and nothing else changes but the
    /// next number, which is one higher or starts over at zero.
    pub proof fn lemma_connecting_keeps_others(
        self,
        after: Self,
        id: Id,
        connection: Arc<C>,
        uuid: ConnectionUuid,
    )
        requires
            self.wf(),
            self.connected(after, id, connection, uuid),
        ensures
            ({
                let idx = self.next_connection_idx;
                &&& after.connections.by2().contains_key(id)
                &&& after.connections.by2()[id] == (idx, (uuid, connection))
                &&& after.connections.by1().contains_key(idx)
                &&& after.connections.by1()[idx] == (id, (uuid, connection))
                &&& forall|other: Id|
                    other != id ==> (#[trigger] after.connections.by2().contains_key(other)
                        <==> self.connections.by2().contains_key(other)
                        && self.connections.by2()[other].0 != idx)
                &&& forall|other: Id|
                    other != id && after.connections.by2().contains_key(other)
                        ==> #[trigger] after.connections.by2()[other]
                        == self.connections.by2()[other]
                &&& forall|other: u32|
                    other != idx ==> (#[trigger] after.connections.by1().contains_key(other)
                        <==> self.connections.by1().contains_key(other)
                        && self.connections.by1()[other].0 != id)
                &&& forall|other: u32|
                    other != idx && after.connections.by1().contains_key(other)
                        ==> #[trigger] after.connections.by1()[other]
                        == self.connections.by1()[other]
                &&& idx < u32::MAX ==> after.next_connection_idx == idx + 1
                &&& idx == u32::MAX ==> after.next_connection_idx == 0
            }),
            after.is_alive == self.is_alive,
            after.transport_idx == self.transport_idx,
            after.properties == self.properties,
            after.channels == self.channels,
    {
        self.connections.lemma_keys_agree();
    }

    /// When a remote is connected, it is sent its number and its UUID, and then the server is told of the
    /// connection under the same number.
    pub proof fn lemma_connecting_is_told<E>(
        self,
        id: Id,
        connection: Arc<C>,
        uuid: ConnectionUuid,
    )
        ensures
            self.connect_actions::<E>(id, connection, uuid) == seq![
                RunnerAction::<Id, C, E>::Send(
                    id,
                    InternalS2C::Connect(ConnectionIdx(self.next_connection_idx), uuid),
                ),
                RunnerAction::Emit(
                    InternEvent::IncomingConnection(
                        ConnectionHandle {
                            transport_idx: self.transport_idx,
                            connection_idx: ConnectionIdx(self.next_connection_idx),
                        },
                        connection,
                    ),
                ),
            ],
    {
    }

    /// The handle of a connection names the transport and the number of the connection.
    pub proof fn lemma_handle_names(self, connection_idx: u32)
        ensures
            self.handle_of(connection_idx).transport_idx == self.transport_idx,
            self.handle_of(connection_idx).connection_idx.0 == connection_idx,
    {
    }

    /// When a connection is ended, it is known no more, neither by its number nor by its remote. Every
    /// other number keeps its remote, and every other remote its number, UUID and connection.
    pub proof fn lemma_ending_keeps_others(self, after: Self, connection_idx: ConnectionIdx)
        requires
            self.wf(),
            self.dropped_connection(after, connection_idx),
        ensures
            !after.connections.by1().contains_key(connection_idx.0),
            forall|other: u32|
                other != connection_idx.0 ==> (#[trigger] after.connections.by1().contains_key(
                    other,
                ) <==> self.connections.by1().contains_key(other)),
            forall|other: u32|
                other != connection_idx.0 && self.connections.by1().contains_key(other)
                    ==> #[trigger] after.connections.by1()[other]
                    == self.connections.by1()[other],
            forall|id: Id| #[trigger]
                after.connections.by2().contains_key(id) <==> self.connections.by2().contains_key(
                    id,
                ) && self.connections.by2()[id].0 != connection_idx.0,
            forall|id: Id|
                after.connections.by2().contains_key(id) ==> #[trigger] after.connections.by2()[id]
                    == self.connections.by2()[id],
    {
        self.connections.lemma_keys_agree();
    }

    /// When a connection is ended, its client is told first if it is to be told, and then the transport
    /// forgets it. Where there is no such connection, nothing is done.
    pub proof fn lemma_ending_is_told<E>(self, connection_idx: ConnectionIdx, notify_client: bool)
        ensures
            ({
                let actions = self.disconnect_actions::<E>(connection_idx, notify_client);
                let id = self.connections.by1()[connection_idx.0].0;
                if !self.connections.by1().contains_key(connection_idx.0) {
                    actions.len() == 0
                } else if notify_client {
                    actions == seq![
                        RunnerAction::<Id, C, E>::Send(id, InternalS2C::Disconnect),
                        RunnerAction::Cleanup(id),
                    ]
                } else {
                    actions == seq![RunnerAction::<Id, C, E>::Cleanup(id)]
                }
            }),
    {
    }

    /// A message that fits into a packet together with its channel is sent to the remote of its
    /// connection, the channel first and then the message, and the transport stays as it is.
    pub proof fn lemma_sent_whole<E>(
        self,
        after: Self,
        connection_idx: ConnectionIdx,
        channel_id: ChannelId,
        channel_config: ChannelConfig,
        payload: Vec<u8>,
        res: TaskStep<Id, C, E>,
    )
        requires
            self.prepared(
                after,
                connection_idx,
                channel_id,
                channel_config,
                Ok::<Vec<u8>, EncodeError<E>>(payload),
                res,
            ),
        ensures
            payload@.len() + 1 <= self.properties.max_packet_size.size() ==> {
                &&& after == self
                &&& res matches TaskStep::Transmit {
                    id,
                    packet,
                    connection_idx: sent_to,
                    channel_config: sent_with,
                }
                &&& id == self.connections.by1()[connection_idx.0].0
                &&& packet@.len() == payload@.len() + 1
                &&& packet@[0] == channel_id.number()
                &&& forall|i: int| 0 <= i < payload@.len() ==> packet@[i + 1] == #[trigger] payload@[i]
                &&& sent_to == connection_idx
                &&& sent_with == channel_config
            },
            payload@.len() + 1 > self.properties.max_packet_size.size() ==> {
                &&& !after.is_alive
                &&& after.connections == self.connections
                &&& after.next_connection_idx == self.next_connection_idx
                &&& res matches TaskStep::Act(actions)
                &&& actions@ == seq![
                    RunnerAction::<Id, C, E>::Emit(InternEvent::DisconnectedSelf(None)),
                ]
            },
    {
        if payload@.len() + 1 <= self.properties.max_packet_size.size() {
            let packet = res->packet@;
            assert forall|i: int| 0 <= i < payload@.len() implies packet[i + 1]
                == #[trigger] payload@[i] by {
                assert(protocol::packet(channel_id.number(), payload@)[i + 1] == payload@[i]);
            }
        }
    }

    /// A message that could not be encoded ends the transport, with that as the reason, and is not sent.
    pub proof fn lemma_unencodable_ends<E>(
        self,
        after: Self,
        connection_idx: ConnectionIdx,
        channel_id: ChannelId,
        channel_config: ChannelConfig,
        err: EncodeError<E>,
        res: TaskStep<Id, C, E>,
    )
        requires
            self.prepared(
                after,
                connection_idx,
                channel_id,
                channel_config,
                Err::<Vec<u8>, EncodeError<E>>(err),
                res,
            ),
        ensures
            !after.is_alive,
            after.connections == self.connections,
            after.next_connection_idx == self.next_connection_idx,
            res matches TaskStep::Act(actions) && actions@ == seq![
                RunnerAction::<Id, C, E>::Emit(
                    InternEvent::DisconnectedSelf(Some(NetworkError::Encode(err))),
                ),
            ],
    {
    }
}

} // verus!
