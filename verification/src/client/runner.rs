//! The transport of a client: whether the server has let it in, and what is to be done with what
//! arrives and with what is to be sent.
//!
//! The transport itself is driven from outside. It hands in what it received, what is to be sent
//! and how that went, and carries out the actions that come back, in their order.

use crate::channel::Channels;
use crate::channel_id::ChannelId;
use crate::client::InternEvent;
use crate::error::{DecodeError, EncodeError, NetworkError};
use crate::message::{ChannelConfig, NetworkEncode};
use crate::protocol::{self, InternalC2S, InternalS2C};
use crate::transport::{ClientTransportError, TransportProperties};
use std::sync::Arc;
use vstd::prelude::*;

verus! {

/// How long a client waits for an answer before it asks again to be let in, in milliseconds.
pub const CONNECT_INTERVAL_MILLIS: u64 = 500;

/// What a client asks of its transport, with `M` for a message.
#[derive(Debug)]
pub enum RunnerTask<M> {
    Send { message: M, channel_id: ChannelId, channel_config: ChannelConfig },
    Disconnect { notify_server: bool },
}

/// Something to be done.
#[derive(Debug)]
pub enum RunnerAction<C, E> {
    /// Send a message to the server. It does not matter if that fails.
    Send(InternalC2S),
    /// Report to the client.
    Emit(InternEvent<C, E>),
}

/// What is to be done with a packet.
#[derive(Debug)]
pub enum Received<C, E> {
    /// Decode what `protocol::payload` gives of the packet, on the channel of the connection, and
    /// hand in the outcome by `decoded`.
    Deliver { connection: Arc<C>, channel_id: ChannelId },
    /// Carry out the actions, which may be none.
    Act(Vec<RunnerAction<C, E>>),
}

impl<C, E> Received<C, E> {
    /// What is to be done are the actions `actions`.
    pub open spec fn acts(self, actions: Seq<RunnerAction<C, E>>) -> bool {
        self matches Received::Act(list) && list@ =~= actions
    }
}

/// What is to be done for a task.
#[derive(Debug)]
pub enum TaskStep<C, E> {
    /// Send the packet to the server and hand in the outcome by `sent`.
    Transmit { packet: Vec<u8>, channel_config: ChannelConfig },
    /// Carry out the actions, which may be none.
    Act(Vec<RunnerAction<C, E>>),
}

impl<C, E> TaskStep<C, E> {
    /// What is to be done are the actions `actions`.
    pub open spec fn acts(self, actions: Seq<RunnerAction<C, E>>) -> bool {
        self matches TaskStep::Act(list) && list@ =~= actions
    }
}

/// The transport of a client, with `C` for the connection and `F` for the decoders of its channels.
pub struct Runner<C, F> {
    pub is_alive: bool,
    /// The server has let the client in.
    pub is_connected: bool,
    pub properties: TransportProperties,
    pub connection: Arc<C>,
    pub channels: Arc<Channels<F>>,
}

impl<C, F> Runner<C, F> {
    /// A transport that just starts. What arrives will be found on `connection`.
    pub fn new(
        properties: TransportProperties,
        connection: Arc<C>,
        channels: Arc<Channels<F>>,
    ) -> (res: Self)
        requires
            properties.is_ordered,
            properties.is_reliable,
        ensures
            res == (Runner {
                is_alive: true,
                is_connected: false,
                properties,
                connection,
                channels,
            }),
    {
        Runner { is_alive: true, is_connected: false, properties, connection, channels }
    }

    /// The transport as it is once it has ended.
    pub open spec fn stopped(self) -> Self {
        Runner { is_alive: false, ..self }
    }

    /// What is to be done when the transport ends: the server is told if `notify_server` says so,
    /// then the client is told.
    pub open spec fn stop_actions<E>(notify_server: bool, error: Option<NetworkError<E>>) -> Seq<
        RunnerAction<C, E>,
    > {
        let goodbye = if notify_server {
            seq![RunnerAction::Send(InternalC2S::Disconnect)]
        } else {
            seq![]
        };
        goodbye + seq![RunnerAction::Emit(InternEvent::Disconnected(error))]
    }

    /// Ends the transport and reports why.
    fn disconnect_and_stop<E>(
        &mut self,
        notify_server: bool,
        error: Option<NetworkError<E>>,
    ) -> (res: Vec<RunnerAction<C, E>>)
        ensures
            *final(self) == old(self).stopped(),
            res@ == Self::stop_actions(notify_server, error),
    {
        let mut actions: Vec<RunnerAction<C, E>> = Vec::new();
        if notify_server {
            actions.push(RunnerAction::Send(InternalC2S::Disconnect));
        }
        actions.push(RunnerAction::Emit(InternEvent::Disconnected(error)));
        self.is_alive = false;
        assert(actions@ =~= Self::stop_actions(notify_server, error));
        actions
    }

    /// The transport has started, or could not, which is reported.
    pub fn started<E>(&mut self, result: Result<(), NetworkError<E>>) -> (res: Option<
        InternEvent<C, E>,
    >)
        ensures
            match result {
                Ok(()) => *final(self) == *old(self) && res is None,
                Err(err) => {
                    &&& *final(self) == old(self).stopped()
                    &&& res == Some(InternEvent::<C, E>::Disconnected(Some(err)))
                },
            },
    {
        match result {
            Ok(()) => None,
            Err(err) => {
                self.is_alive = false;
                Some(InternEvent::Disconnected(Some(err)))
            },
        }
    }

    /// What to send while the server has not let the client in: the client asks to be let in, over
    /// and over, and waits in between.
    pub fn next_connect(&self) -> (res: Option<InternalC2S>)
        ensures
            res == if self.is_alive && !self.is_connected {
                Some(InternalC2S::Connect)
            } else {
                None
            },
    {
        if self.is_alive && !self.is_connected {
            Some(InternalC2S::Connect)
        } else {
            None
        }
    }

    /// The transport could not receive.
    pub fn receive_failed<E>(&mut self, err: ClientTransportError<E>) -> (res: Vec<
        RunnerAction<C, E>,
    >)
        ensures
            match err {
                ClientTransportError::Disconnected => {
                    &&& *final(self) == old(self).stopped()
                    &&& res@ == Self::stop_actions::<E>(false, None)
                },
                ClientTransportError::TimedOut => {
                    &&& *final(self) == *old(self)
                    &&& res@ == Seq::<RunnerAction<C, E>>::empty()
                },
                ClientTransportError::Internal(err) => {
                    &&& *final(self) == *old(self)
                    &&& res@ == seq![
                        RunnerAction::<C, E>::Emit(
                            InternEvent::Error(NetworkError::TransportReceive(err)),
                        ),
                    ]
                },
            },
    {
        match err {
            ClientTransportError::Disconnected => self.disconnect_and_stop(false, None),
            ClientTransportError::TimedOut => Vec::new(),
            ClientTransportError::Internal(err) => vec![
                RunnerAction::Emit(InternEvent::Error(NetworkError::TransportReceive(err))),
            ],
        }
    }

    /// A packet has arrived from the server.
    pub fn receive<E>(&mut self, buf: &[u8]) -> (res: Received<C, E>)
        ensures
            old(self).received(*final(self), buf@, res),
    {
        if buf.len() == 0 {
            return Received::Act(Vec::new());
        }
        if self.is_connected {
            match ChannelId::try_new(buf[0]) {
                Some(channel_id) => Received::Deliver {
                    connection: Arc::clone(&self.connection),
                    channel_id,
                },
                None => match InternalS2C::decode(buf) {
                    Some(InternalS2C::Connect(_, _)) => Received::Act(Vec::new()),
                    Some(InternalS2C::Disconnect) => Received::Act(
                        self.disconnect_and_stop(false, None),
                    ),
                    Some(InternalS2C::RequestId) => Received::Act(Vec::new()),
                    None => Received::Act(Vec::new()),
                },
            }
        } else {
            match InternalS2C::decode(buf) {
                Some(InternalS2C::Connect(_, _)) => {
                    self.is_connected = true;
                    Received::Act(
                        vec![
                            RunnerAction::Emit(
                                InternEvent::Connected(Arc::clone(&self.connection)),
                            ),
                        ],
                    )
                },
                Some(InternalS2C::Disconnect) => Received::Act(
                    self.disconnect_and_stop(false, None),
                ),
                Some(InternalS2C::RequestId) => Received::Act(Vec::new()),
                None => Received::Act(Vec::new()),
            }
        }
    }

    /// What `receive` does to the transport, and what it returns.
    pub open spec fn received<E>(self, after: Self, buf: Seq<u8>, res: Received<C, E>) -> bool {
        let nothing = Seq::<RunnerAction<C, E>>::empty();
        if self.is_connected && buf.len() > 0 && buf[0] <= protocol::MAX_CHANNEL_ID {
            &&& after == self
            &&& res matches Received::Deliver { connection, channel_id }
            &&& connection == self.connection
            &&& channel_id.number() == buf[0]
        } else {
            match InternalS2C::parse(buf) {
                Some(InternalS2C::Connect(_, _)) if !self.is_connected => {
                    &&& after == (Runner { is_connected: true, ..self })
                    &&& res.acts(
                        seq![RunnerAction::Emit(InternEvent::Connected(self.connection))],
                    )
                },
                Some(InternalS2C::Disconnect) => {
                    &&& after == self.stopped()
                    &&& res.acts(Self::stop_actions(false, None))
                },
                _ => after == self && res.acts(nothing),
            }
        }
    }

    /// A message has been decoded, or could not be. A message that is lost for good though it must
    /// not be lost ends the transport.
    pub fn decoded<E>(
        &mut self,
        channel_id: ChannelId,
        outcome: Option<Result<(), DecodeError<E>>>,
    ) -> (res: Vec<RunnerAction<C, E>>)
        ensures
            match outcome {
                Some(Err(err)) => if old(self).properties.is_reliable && old(
                    self,
                ).channels.reliable(channel_id.number()) {
                    &&& *final(self) == old(self).stopped()
                    &&& res@ == Self::stop_actions(false, Some(NetworkError::Decode(err)))
                } else {
                    &&& *final(self) == *old(self)
                    &&& res@ == seq![
                        RunnerAction::<C, E>::Emit(InternEvent::Error(NetworkError::Decode(err))),
                    ]
                },
                _ => *final(self) == *old(self) && res@ == Seq::<RunnerAction<C, E>>::empty(),
            },
    {
        match outcome {
            Some(Err(err)) => if self.properties.is_reliable && self.channels.is_reliable(
                channel_id,
            ) {
                self.disconnect_and_stop(false, Some(NetworkError::from(err)))
            } else {
                vec![RunnerAction::Emit(InternEvent::Error(NetworkError::Decode(err)))]
            },
            Some(Ok(())) => Vec::new(),
            None => Vec::new(),
        }
    }

    /// Starts on a task of the client. A message that is to be sent before the server has let the
    /// client in ends the transport.
    pub fn start_task<M: NetworkEncode>(&mut self, task: RunnerTask<M>) -> (res: TaskStep<
        C,
        M::Error,
    >)
        ensures
            match task {
                RunnerTask::Send { message, channel_id, channel_config } => if old(
                    self,
                ).is_connected {
                    exists|encoded: Result<Vec<u8>, EncodeError<M::Error>>|
                        {
                            &&& #[trigger] call_ensures(M::encode, (&message,), encoded)
                            &&& old(self).prepared(
                                *final(self),
                                channel_id,
                                channel_config,
                                encoded,
                                res,
                            )
                        }
                } else {
                    &&& *final(self) == old(self).stopped()
                    &&& res.acts(Self::stop_actions(false, None))
                },
                RunnerTask::Disconnect { notify_server } => {
                    &&& *final(self) == old(self).stopped()
                    &&& res.acts(Self::stop_actions(notify_server, None))
                },
            },
    {
        match task {
            RunnerTask::Send { message, channel_id, channel_config } => if self.is_connected {
                let encoded = message.encode();
                self.prepare(channel_id, channel_config, encoded)
            } else {
                TaskStep::Act(self.disconnect_and_stop(false, None))
            },
            RunnerTask::Disconnect { notify_server } => TaskStep::Act(
                self.disconnect_and_stop(notify_server, None),
            ),
        }
    }

    /// Makes a packet of an encoded message. A message that is too large for a packet, or could not
    /// be encoded, ends the transport.
    pub fn prepare<E>(
        &mut self,
        channel_id: ChannelId,
        channel_config: ChannelConfig,
        encoded: Result<Vec<u8>, EncodeError<E>>,
    ) -> (res: TaskStep<C, E>)
        ensures
            old(self).prepared(*final(self), channel_id, channel_config, encoded, res),
    {
        match encoded {
            Ok(payload) => {
                if payload.len() > protocol::max_payload_size(self.properties.max_packet_size) {
                    return TaskStep::Act(self.disconnect_and_stop(false, None));
                }
                TaskStep::Transmit {
                    packet: protocol::encode_packet(channel_id, payload.as_slice()),
                    channel_config,
                }
            },
            Err(err) => TaskStep::Act(
                self.disconnect_and_stop(true, Some(NetworkError::from(err))),
            ),
        }
    }

    /// What `prepare` does to the transport, and what it returns.
    pub open spec fn prepared<E>(
        self,
        after: Self,
        channel_id: ChannelId,
        channel_config: ChannelConfig,
        encoded: Result<Vec<u8>, EncodeError<E>>,
        res: TaskStep<C, E>,
    ) -> bool {
        match encoded {
            Ok(payload) => if payload@.len() < self.properties.max_packet_size.size() {
                &&& after == self
                &&& res matches TaskStep::Transmit { packet, channel_config: sent_with }
                &&& packet@ == protocol::packet(channel_id.number(), payload@)
                &&& sent_with == channel_config
            } else {
                after == self.stopped() && res.acts(Self::stop_actions(false, None))
            },
            Err(err) => {
                &&& after == self.stopped()
                &&& res.acts(Self::stop_actions(true, Some(NetworkError::Encode(err))))
            },
        }
    }

    /// A packet has been sent, or could not be. A packet that is lost though it must not be lost
    /// ends the transport.
    pub fn sent<E>(
        &mut self,
        channel_config: ChannelConfig,
        result: Result<(), ClientTransportError<E>>,
    ) -> (res: Vec<RunnerAction<C, E>>)
        ensures
            match result {
                Ok(()) => {
                    &&& *final(self) == *old(self)
                    &&& res@ == Seq::<RunnerAction<C, E>>::empty()
                },
                Err(ClientTransportError::Disconnected) => {
                    &&& *final(self) == old(self).stopped()
                    &&& res@ == Self::stop_actions::<E>(false, None)
                },
                Err(ClientTransportError::TimedOut) => if channel_config.reliable {
                    &&& *final(self) == old(self).stopped()
                    &&& res@ == Self::stop_actions::<E>(false, None)
                } else {
                    &&& *final(self) == *old(self)
                    &&& res@ == Seq::<RunnerAction<C, E>>::empty()
                },
                Err(ClientTransportError::Internal(err)) => {
                    let report = seq![
                        RunnerAction::<C, E>::Emit(
                            InternEvent::Error(NetworkError::TransportSend(err)),
                        ),
                    ];
                    if channel_config.reliable {
                        &&& *final(self) == old(self).stopped()
                        &&& res@ == report + Self::stop_actions::<E>(false, None)
                    } else {
                        &&& *final(self) == *old(self)
                        &&& res@ == report
                    }
                },
            },
    {
        let err = match result {
            Ok(()) => return Vec::new(),
            Err(err) => err,
        };
        match err {
            ClientTransportError::Disconnected => self.disconnect_and_stop(false, None),
            ClientTransportError::TimedOut => if channel_config.reliable {
                self.disconnect_and_stop(false, None)
            } else {
                Vec::new()
            },
            ClientTransportError::Internal(err) => {
                let mut actions: Vec<RunnerAction<C, E>> = Vec::new();
                actions.push(
                    RunnerAction::Emit(InternEvent::Error(NetworkError::TransportSend(err))),
                );
                if channel_config.reliable {
                    let mut stop = self.disconnect_and_stop(false, None);
                    actions.append(&mut stop);
                }
                actions
            },
        }
    }

    /// The client has let go of the transport: no more tasks will come.
    pub fn tasks_closed(&mut self)
        ensures
            *final(self) == old(self).stopped(),
    {
        self.is_alive = false;
    }

    /// A transport that has ended is the same as before but for that.
    pub proof fn lemma_stopped_but_the_same(self)
        ensures
            !self.stopped().is_alive,
            self.stopped().is_connected == self.is_connected,
            self.stopped().properties == self.properties,
            self.stopped().connection == self.connection,
            self.stopped().channels == self.channels,
    {
    }

    /// When the transport ends, the client is told why, once. The server is told before that, and only
    /// if it is to be told.
    pub proof fn lemma_end_is_told<E>(error: Option<NetworkError<E>>)
        ensures
            Self::stop_actions(true, error) == seq![
                RunnerAction::<C, E>::Send(InternalC2S::Disconnect),
                RunnerAction::Emit(InternEvent::Disconnected(error)),
            ],
            Self::stop_actions(false, error) == seq![
                RunnerAction::<C, E>::Emit(InternEvent::Disconnected(error)),
            ],
    {
        assert(Self::stop_actions(true, error) =~= seq![
            RunnerAction::<C, E>::Send(InternalC2S::Disconnect),
            RunnerAction::Emit(InternEvent::Disconnected(error)),
        ]);
        assert(Self::stop_actions(false, error) =~= seq![
            RunnerAction::<C, E>::Emit(InternEvent::Disconnected(error)),
        ]);
    }

    /// A client that was let in delivers what names a channel to its connection, on that channel. The
    /// one byte of a goodbye ends its transport, and the client is told, without an error. Nothing else
    /// does anything.
    pub proof fn lemma_heard_when_let_in<E>(self, after: Self, buf: Seq<u8>, res: Received<C, E>)
        requires
            self.is_connected,
            self.received(after, buf, res),
        ensures
            buf.len() > 0 && buf[0] <= 127 ==> after == self && (res matches Received::Deliver {
                connection,
                channel_id,
            } && connection == self.connection && channel_id.number() == buf[0]),
            buf == seq![129u8] ==> !after.is_alive && after.is_connected && after.connection
                == self.connection && (res matches Received::Act(actions) && actions@ == seq![
                RunnerAction::<C, E>::Emit(InternEvent::Disconnected(None)),
            ]),
            buf != seq![129u8] && (buf.len() == 0 || buf[0] > 127) ==> after == self && (
            res matches Received::Act(actions) && actions@.len() == 0),
    {
        Self::lemma_end_is_told::<E>(None);
        if buf.len() == 1 {
            assert(buf =~= seq![buf[0]]);
        }
    }

    /// A client that was not let in yet is let in by the answer of the server, twenty-one bytes of the
    /// kind for it, and is told so with the connection that it then has. The one byte of a goodbye ends
    /// its transport, and the client is told, without an error. Nothing else does anything.
    pub proof fn lemma_heard_before_let_in<E>(self, after: Self, buf: Seq<u8>, res: Received<C, E>)
        requires
            !self.is_connected,
            self.received(after, buf, res),
        ensures
            buf.len() == 21 && buf[0] == 128 ==> after.is_connected && after.is_alive
                == self.is_alive && after.connection == self.connection && after.properties
                == self.properties && after.channels == self.channels && (
            res matches Received::Act(actions) && actions@ == seq![
                RunnerAction::<C, E>::Emit(InternEvent::Connected(self.connection)),
            ]),
            buf == seq![129u8] ==> !after.is_alive && !after.is_connected && (
            res matches Received::Act(actions) && actions@ == seq![
                RunnerAction::<C, E>::Emit(InternEvent::Disconnected(None)),
            ]),
            buf != seq![129u8] && !(buf.len() == 21 && buf[0] == 128) ==> after == self && (
            res matches Received::Act(actions) && actions@.len() == 0),
    {
        Self::lemma_end_is_told::<E>(None);
        if buf.len() == 1 {
            assert(buf =~= seq![buf[0]]);
        }
    }

    /// A message that fits into a packet together with its channel is sent, the channel first and then
    /// the message, and the transport stays as it is. One that does not fit ends the transport, and the
    /// client is told, without an error.
    pub proof fn lemma_sent_whole<E>(
        self,
        after: Self,
        channel_id: ChannelId,
        channel_config: ChannelConfig,
        payload: Vec<u8>,
        res: TaskStep<C, E>,
    )
        requires
            self.prepared(
                after,
                channel_id,
                channel_config,
                Ok::<Vec<u8>, EncodeError<E>>(payload),
                res,
            ),
        ensures
            payload@.len() + 1 <= self.properties.max_packet_size.size() ==> {
                &&& after == self
                &&& res matches TaskStep::Transmit { packet, channel_config: sent_with }
                &&& packet@.len() == payload@.len() + 1
                &&& packet@[0] == channel_id.number()
                &&& packet@.skip(1) == payload@
                &&& sent_with == channel_config
            },
            payload@.len() + 1 > self.properties.max_packet_size.size() ==> {
                &&& !after.is_alive
                &&& after.is_connected == self.is_connected
                &&& after.connection == self.connection
                &&& res matches TaskStep::Act(actions)
                &&& actions@ == seq![RunnerAction::<C, E>::Emit(InternEvent::Disconnected(None))]
            },
    {
        Self::lemma_end_is_told::<E>(None);
        if payload@.len() + 1 <= self.properties.max_packet_size.size() {
            assert(protocol::packet(channel_id.number(), payload@).skip(1) =~= payload@);
        }
    }

    /// A message that could not be encoded ends the transport: the server is told, and then the client,
    /// with that as the reason.
    pub proof fn lemma_unencodable_ends<E>(
        self,
        after: Self,
        channel_id: ChannelId,
        channel_config: ChannelConfig,
        err: EncodeError<E>,
        res: TaskStep<C, E>,
    )
        requires
            self.prepared(
                after,
                channel_id,
                channel_config,
                Err::<Vec<u8>, EncodeError<E>>(err),
                res,
            ),
        ensures
            !after.is_alive,
            after.is_connected == self.is_connected,
            after.connection == self.connection,
            res matches TaskStep::Act(actions) && actions@ == seq![
                RunnerAction::<C, E>::Send(InternalC2S::Disconnect),
                RunnerAction::Emit(InternEvent::Disconnected(Some(NetworkError::Encode(err)))),
            ],
    {
        Self::lemma_end_is_told(Some(NetworkError::Encode(err)));
    }
}

} // verus!
