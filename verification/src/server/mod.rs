//! The server: the connections it holds, and what it has its transports do.
//!
//! The transports and the wait for what they report are driven from outside. What they report is
//! handed in by `process_event`. The tasks that come back go to the transports that they name.

pub mod runner;

use crate::channel::Channels;
use crate::channel_id::ChannelId;
use crate::error::NetworkError;
use crate::handle::{ConnectionHandle, TransportIdx};
use crate::handle_map::HandleMap;
use crate::message::NetworkMessage;
use crate::new_data::NewDataAvailable;
use crate::server::runner::RunnerTask;
use std::collections::VecDeque;
use std::sync::Arc;
use vstd::prelude::*;

verus! {

/// What the transports of a server report to it, with `C` for a connection and `E` for the reason
/// of an error.
#[derive(Debug)]
pub enum InternEvent<C, E> {
    TransportIsUp(TransportIdx),
    ServerIsUp,
    IncomingConnection(ConnectionHandle, Arc<C>),
    Disconnected(ConnectionHandle),
    DisconnectedSelf(Option<NetworkError<E>>),
    Error(Option<ConnectionHandle>, NetworkError<E>),
}

/// What a server reports to its user.
#[derive(Debug)]
pub enum ServerEvent<E> {
    TransportIsUp(TransportIdx),
    ServerIsUp,
    IncomingConnection(IncomingConnection),
    Disconnected(ConnectionHandle),
    DisconnectedSelf(Option<NetworkError<E>>),
    Error(Option<ConnectionHandle>, NetworkError<E>),
}

/// A connection that waits to be accepted.
#[derive(Debug)]
pub struct IncomingConnection {
    handle: ConnectionHandle,
    disconnect_on_drop: bool,
}

impl IncomingConnection {
    /// The connection.
    pub closed spec fn of(&self) -> ConnectionHandle {
        self.handle
    }

    /// The connection has not been accepted.
    pub closed spec fn is_open(&self) -> bool {
        self.disconnect_on_drop
    }

    /// The connection.
    pub fn handle(&self) -> (res: ConnectionHandle)
        ensures
            res == self.of(),
    {
        self.handle
    }

    /// What is to be done when this is let go: a connection that was not accepted is reported to
    /// the server as gone, and its transport ends it.
    pub fn let_go<C, E, M>(&self) -> (res: Option<(InternEvent<C, E>, RunnerTask<M>)>)
        ensures
            res == if self.is_open() {
                Some(
                    (
                        InternEvent::<C, E>::Disconnected(self.of()),
                        RunnerTask::<M>::Disconnect {
                            connection_idx: self.of().connection_idx,
                            notify_client: true,
                        },
                    ),
                )
            } else {
                None
            },
    {
        if self.disconnect_on_drop {
            Some(
                (
                    InternEvent::Disconnected(self.handle),
                    RunnerTask::Disconnect {
                        connection_idx: self.handle.connection_idx,
                        notify_client: true,
                    },
                ),
            )
        } else {
            None
        }
    }
}

/// What comes of a report.
#[derive(Debug)]
pub struct Processed<E> {
    /// What the user is told. `None` where there was no report, or no server that runs.
    pub event: Option<ServerEvent<E>>,
    /// The server has to be told by `InternEvent::ServerIsUp` that all its transports are up.
    pub server_is_up: bool,
}

/// What a running server knows.
#[verifier::ext_equal]
pub struct ServerView<C> {
    /// Which of its transports are up.
    pub up: Seq<bool>,
    /// The connections that were accepted.
    pub connections: Map<ConnectionHandle, Arc<C>>,
    /// The connections that wait to be accepted.
    pub incoming: Map<ConnectionHandle, Arc<C>>,
}

impl<C> ServerView<C> {
    /// The server has the transport.
    pub open spec fn has_transport(self, transport_idx: TransportIdx) -> bool {
        transport_idx.0 < self.up.len()
    }

    /// The transport that `event` speaks of, if it speaks of one, is one of the server.
    pub open spec fn knows_transport<E>(self, event: InternEvent<C, E>) -> bool {
        match event {
            InternEvent::TransportIsUp(idx) => self.has_transport(idx),
            InternEvent::IncomingConnection(handle, _) => self.has_transport(handle.transport_idx),
            _ => true,
        }
    }

    /// `event` speaks of a transport of the server, or of the end of a connection that was accepted, if
    /// it speaks of a transport or of an end.
    pub open spec fn can_process<E>(self, event: InternEvent<C, E>) -> bool {
        &&& self.knows_transport(event)
        &&& event matches InternEvent::Disconnected(handle) ==> self.connections.contains_key(
            handle,
        )
    }

    /// What the server knows once it has accepted `handle`.
    pub open spec fn accepted(self, handle: ConnectionHandle) -> Self {
        ServerView {
            connections: self.connections.insert(handle, self.incoming[handle]),
            incoming: self.incoming.remove(handle),
            ..self
        }
    }

    /// Every connection belongs to a transport of the server.
    pub open spec fn wf(self) -> bool {
        &&& forall|handle: ConnectionHandle| #[trigger]
            self.connections.contains_key(handle) ==> self.has_transport(handle.transport_idx)
        &&& forall|handle: ConnectionHandle| #[trigger]
            self.incoming.contains_key(handle) ==> self.has_transport(handle.transport_idx)
    }
}

impl<C> ServerView<C> {
    /// Every connection still belongs to a transport where no transport has gone and the connections
    /// that are new, which are among `added`, do.
    proof fn lemma_stays_wf(self, after: Self, added: Set<ConnectionHandle>)
        requires
            self.wf(),
            after.up.len() == self.up.len(),
            after.connections.dom().subset_of(self.connections.dom().union(added)),
            after.incoming.dom().subset_of(self.incoming.dom().union(added)),
            forall|handle: ConnectionHandle| #[trigger]
                added.contains(handle) ==> self.has_transport(handle.transport_idx),
        ensures
            after.wf(),
    {
        assert forall|handle: ConnectionHandle| #[trigger]
            after.connections.contains_key(handle) implies after.has_transport(
            handle.transport_idx,
        ) by {
            assert(self.connections.contains_key(handle) || added.contains(handle));
        }
        assert forall|handle: ConnectionHandle| #[trigger]
            after.incoming.contains_key(handle) implies after.has_transport(
            handle.transport_idx,
        ) by {
            assert(self.incoming.contains_key(handle) || added.contains(handle));
        }
    }
}

struct ServerRunning<C> {
    up: Vec<bool>,
    connections: HandleMap<Arc<C>>,
    incoming: HandleMap<Arc<C>>,
}

enum ServerState<C> {
    Disconnected,
    Running(ServerRunning<C>),
}

/// A server, with `C` for a connection and `F` for the decoders of its channels.
pub struct Server<C, F> {
    channels: Arc<Channels<F>>,
    state: ServerState<C>,
}

impl<C, F> View for Server<C, F> {
    type V = Option<ServerView<C>>;

    /// What the server knows, if it runs.
    closed spec fn view(&self) -> Option<ServerView<C>> {
        match self.state {
            ServerState::Disconnected => None,
            ServerState::Running(running) => Some(
                ServerView {
                    up: running.up@,
                    connections: running.connections@,
                    incoming: running.incoming@,
                },
            ),
        }
    }
}

/// The task that ends the connection of `handle` and tells the client.
pub open spec fn disconnect_task<M>(handle: ConnectionHandle) -> (TransportIdx, RunnerTask<M>) {
    (
        handle.transport_idx,
        RunnerTask::Disconnect { connection_idx: handle.connection_idx, notify_client: true },
    )
}

/// The tasks that end the connections of `handles`, one after the other.
pub open spec fn disconnect_tasks<M>(handles: Seq<ConnectionHandle>) -> Seq<
    (TransportIdx, RunnerTask<M>),
> {
    Seq::new(handles.len(), |i: int| disconnect_task::<M>(handles[i]))
}

/// The task that sends `message` on the connection of `handle`.
pub open spec fn send_task<T: NetworkMessage>(message: Arc<T>, handle: ConnectionHandle) -> (
    TransportIdx,
    RunnerTask<T>,
) {
    (
        handle.transport_idx,
        RunnerTask::SendTo {
            message,
            connection_idx: handle.connection_idx,
            channel_id: ChannelId::of(T::CHANNEL_ID),
            channel_config: T::CHANNEL_CONFIG,
        },
    )
}

/// The tasks that send `message` on the connections of `handles`, one after the other.
pub open spec fn send_tasks<T: NetworkMessage>(
    message: Arc<T>,
    handles: Seq<ConnectionHandle>,
) -> Seq<(TransportIdx, RunnerTask<T>)> {
    Seq::new(handles.len(), |i: int| send_task::<T>(message, handles[i]))
}

/// `handles` goes through `connections`, each of them once, in some order.
pub open spec fn walks(handles: Seq<ConnectionHandle>, connections: Set<ConnectionHandle>) -> bool {
    handles.no_duplicates() && handles.to_set() == connections
}

impl<C, F> Server<C, F> {
    /// The channels of the server.
    pub closed spec fn chans(&self) -> Channels<F> {
        *self.channels
    }

    pub open spec fn wf(&self) -> bool {
        &&& self.chans().wf()
        &&& self@ matches Some(running) ==> running.wf()
    }

    /// A server that does not run yet.
    pub fn new(channels: Arc<Channels<F>>) -> (res: Self)
        requires
            channels.wf(),
        ensures
            res.wf(),
            res.chans() == *channels,
            res@ is None,
    {
        Server { channels, state: ServerState::Disconnected }
    }

    /// Starts the server anew, with `transports` transports that are not up yet. The tasks end the
    /// connections that it had.
    pub fn start<M>(&mut self, transports: usize) -> (res: Vec<(TransportIdx, RunnerTask<M>)>)
        requires
            old(self).wf(),
        ensures
            final(self).wf(),
            final(self).chans() == old(self).chans(),
            final(self)@ == Some(
                ServerView::<C> {
                    up: Seq::new(transports as nat, |i: int| false),
                    connections: Map::empty(),
                    incoming: Map::empty(),
                },
            ),
            old(self).ends_connections(res@),
            old(self)@ is None ==> res@.len() == 0,
            old(self)@ matches Some(running) ==> res@.len() == running.connections.dom().len(),
            res@.no_duplicates(),
            old(self)@ matches Some(running) ==> forall|handle: ConnectionHandle| #[trigger]
                running.connections.contains_key(handle) <==> res@.contains(
                    (
                        handle.transport_idx,
                        RunnerTask::<M>::Disconnect {
                            connection_idx: handle.connection_idx,
                            notify_client: true,
                        },
                    ),
                ),
    {
        let tasks = self.stop();
        let mut up: Vec<bool> = Vec::new();
        while up.len() < transports
            invariant
                up@.len() <= transports,
                forall|i: int| 0 <= i < up@.len() ==> !#[trigger] up@[i],
            decreases transports - up@.len(),
        {
            up.push(false);
        }
        self.state = ServerState::Running(
            ServerRunning { up, connections: HandleMap::new(), incoming: HandleMap::new() },
        );
        assert(self@->0.up =~= Seq::new(transports as nat, |i: int| false));
        tasks
    }

    /// The tasks `tasks` end every connection that was accepted.
    pub open spec fn ends_connections<M>(&self, tasks: Seq<(TransportIdx, RunnerTask<M>)>) -> bool {
        match self@ {
            None => tasks.len() == 0,
            Some(running) => exists|handles: Seq<ConnectionHandle>|
                #[trigger] walks(handles, running.connections.dom()) && tasks
                    == disconnect_tasks::<M>(handles),
        }
    }

    /// Stops the server. The tasks end the connections that it had.
    pub fn stop<M>(&mut self) -> (res: Vec<(TransportIdx, RunnerTask<M>)>)
        requires
            old(self).wf(),
        ensures
            final(self).wf(),
            final(self).chans() == old(self).chans(),
            final(self)@ is None,
            old(self).ends_connections(res@),
            old(self)@ is None ==> res@.len() == 0,
            old(self)@ matches Some(running) ==> res@.len() == running.connections.dom().len(),
            res@.no_duplicates(),
            old(self)@ matches Some(running) ==> forall|handle: ConnectionHandle| #[trigger]
                running.connections.contains_key(handle) <==> res@.contains(
                    (
                        handle.transport_idx,
                        RunnerTask::<M>::Disconnect {
                            connection_idx: handle.connection_idx,
                            notify_client: true,
                        },
                    ),
                ),
    {
        let mut tasks: Vec<(TransportIdx, RunnerTask<M>)> = Vec::new();
        if let ServerState::Running(running) = &self.state {
            let handles = running.connections.handles();
            let mut i: usize = 0;
            while i < handles.len()
                invariant
                    i <= handles@.len(),
                    tasks@ == disconnect_tasks::<M>(handles@.take(i as int)),
                decreases handles@.len() - i,
            {
                let handle = handles[i];
                tasks.push(
                    (
                        handle.transport_idx,
                        RunnerTask::Disconnect {
                            connection_idx: handle.connection_idx,
                            notify_client: true,
                        },
                    ),
                );
                i = i + 1;
            }
            assert(handles@.take(i as int) =~= handles@);
            assert(walks(handles@, old(self)@->0.connections.dom()));
        }
        self.state = ServerState::Disconnected;
        proof {
            old(self).lemma_ends_each_once::<M>(tasks@);
        }
        tasks
    }

    /// Ends a connection. The task tells its transport.
    pub fn disconnect<M>(&mut self, handle: ConnectionHandle) -> (res: Option<
        (TransportIdx, RunnerTask<M>),
    >)
        requires
            old(self).wf(),
            old(self)@ matches Some(running) ==> running.has_transport(handle.transport_idx),
        ensures
            final(self).wf(),
            final(self).chans() == old(self).chans(),
            match old(self)@ {
                None => final(self)@ is None && res is None,
                Some(running) => {
                    &&& final(self)@ == Some(
                        ServerView { connections: running.connections.remove(handle), ..running },
                    )
                    &&& res == Some(disconnect_task::<M>(handle))
                },
            },
    {
        match &mut self.state {
            ServerState::Disconnected => None,
            ServerState::Running(running) => {
                running.connections.remove(&handle);
                Some(
                    (
                        handle.transport_idx,
                        RunnerTask::Disconnect {
                            connection_idx: handle.connection_idx,
                            notify_client: true,
                        },
                    ),
                )
            },
        }
    }

    /// Accepts a connection that waits. There is nothing to accept where it has gone meanwhile.
    pub fn accept(&mut self, incoming: &mut IncomingConnection) -> (res: Option<ConnectionHandle>)
        requires
            old(self).wf(),
        ensures
            final(self).wf(),
            final(self).chans() == old(self).chans(),
            final(incoming).of() == old(incoming).of(),
            ({
                let handle = old(incoming).of();
                match old(self)@ {
                    Some(running) if running.incoming.contains_key(handle) => {
                        &&& res == Some(handle)
                        &&& !final(incoming).is_open()
                        &&& final(self)@ == Some(running.accepted(handle))
                    },
                    _ => {
                        &&& res is None
                        &&& *final(incoming) == *old(incoming)
                        &&& final(self)@ == old(self)@
                    },
                }
            }),
    {
        let handle = incoming.handle;
        let res = match &mut self.state {
            ServerState::Disconnected => None,
            ServerState::Running(running) => match running.incoming.remove(&handle) {
                Some(connection) => {
                    incoming.disconnect_on_drop = false;
                    running.connections.insert(handle, connection);
                    Some(handle)
                },
                None => {
                    assert(running.incoming@ =~= old(self)@->0.incoming);
                    None
                },
            },
        };
        proof {
            if res is Some {
                assert(self@ == Some(old(self)@->0.accepted(handle)));
                assert(old(self)@->0.incoming.contains_key(handle));
                old(self)@->0.lemma_stays_wf(self@->0, set![handle]);
            }
        }
        res
    }

    /// The server runs.
    pub fn is_running(&self) -> (res: bool)
        ensures
            res == self@ is Some,
    {
        match &self.state {
            ServerState::Disconnected => false,
            ServerState::Running(_) => true,
        }
    }

    /// What a wait for something to arrive ends with: whether something has. A server that does not
    /// run does not wait.
    pub fn wait_timeout(&self, new_data: &mut NewDataAvailable) -> (res: bool)
        ensures
            res == (self@ is Some && old(new_data).pending()),
            self@ is Some ==> !final(new_data).pending(),
            self@ is None ==> *final(new_data) == *old(new_data),
    {
        match &self.state {
            ServerState::Disconnected => false,
            ServerState::Running(_) => new_data.wait_timeout(),
        }
    }

    /// Takes from the front of `queue` the reports of the end of connections that were not accepted.
    /// These connections wait no more to be accepted. The user is not told.
    pub fn pass_over<E>(&mut self, queue: &mut VecDeque<InternEvent<C, E>>)
        requires
            old(self).wf(),
        ensures
            final(self).wf(),
            final(self).chans() == old(self).chans(),
            match old(self)@ {
                None => final(self)@ is None && final(queue)@ == old(queue)@,
                Some(running) => {
                    &&& final(self)@ matches Some(after)
                    &&& passed(running, after, old(queue)@, final(queue)@)
                },
            },
    {
        if !self.is_running() {
            return ;
        }
        let ghost mut k: int = 0;
        proof {
            assert(old(queue)@.take(0) =~= Seq::empty());
            assert(old(queue)@.skip(0) =~= old(queue)@);
        }
        while queue.len() > 0
            invariant
                old(self)@ is Some,
                self.wf(),
                self.chans() == old(self).chans(),
                0 <= k <= old(queue)@.len(),
                queue@ == old(queue)@.skip(k),
                self@ == Some(absorbed(old(self)@->0, old(queue)@.take(k))),
                self@->0.connections == old(self)@->0.connections,
                passed_over(old(self)@->0, old(queue)@.take(k)),
            decreases queue@.len(),
        {
            let ghost seen = old(queue)@.take(k);
            let ghost event = queue@[0];
            let refused = match (&self.state, &queue[0]) {
                (ServerState::Running(running), InternEvent::Disconnected(handle)) => {
                    if running.connections.get(handle).is_some() {
                        None
                    } else {
                        Some(*handle)
                    }
                },
                _ => None,
            };
            match refused {
                None => {
                    assert(passed_at(old(self)@->0, self@->0, old(queue)@, queue@, k));
                    return ;
                },
                Some(handle) => {
                    queue.pop_front();
                    self.refuse(handle);
                    proof {
                        assert(queue@ =~= old(queue)@.skip(k + 1));
                        assert(old(queue)@.take(k + 1) =~= seen.push(event));
                        assert(seen.push(event).drop_last() =~= seen);
                        k = k + 1;
                    }
                },
            }
        }
        assert(passed_at(old(self)@->0, self@->0, old(queue)@, queue@, k));
    }

    /// A connection waits no more to be accepted.
    fn refuse(&mut self, handle: ConnectionHandle)
        requires
            old(self).wf(),
            old(self)@ is Some,
        ensures
            final(self).wf(),
            final(self).chans() == old(self).chans(),
            final(self)@ == Some(
                ServerView {
                    incoming: old(self)@->0.incoming.remove(handle),
                    ..old(self)@->0
                },
            ),
    {
        if let ServerState::Running(running) = &mut self.state {
            running.incoming.remove(&handle);
        }
        proof {
            old(self)@->0.lemma_stays_wf(self@->0, set![]);
        }
    }

    /// Takes in the next report of the transports. The reports wait in `queue`. When all transports
    /// are up, the server queues a report of that.
    ///
    /// The end of a connection that was not accepted is nothing to be told: `pass_over` takes such
    /// reports away first.
    pub fn process_events<E>(&mut self, queue: &mut VecDeque<InternEvent<C, E>>) -> (res: Processed<
        E,
    >)
        requires
            old(self).wf(),
            old(self)@ matches Some(running) ==> old(queue)@.len() > 0 ==> running.can_process(
                old(queue)@[0],
            ),
        ensures
            final(self).wf(),
            final(self).chans() == old(self).chans(),
            if old(self)@ is Some && old(queue)@.len() > 0 {
                processed_next(old(self)@->0, final(self)@, old(queue)@, final(queue)@, res)
            } else {
                &&& final(self)@ == old(self)@
                &&& final(queue)@ == old(queue)@
                &&& res.event is None
                &&& !res.server_is_up
            },
    {
        if !self.is_running() {
            return Processed { event: None, server_is_up: false };
        }
        match queue.pop_front() {
            None => Processed { event: None, server_is_up: false },
            Some(event) => {
                let processed = self.process_event(event);
                if processed.server_is_up {
                    queue.push_back(InternEvent::ServerIsUp);
                }
                processed
            },
        }
    }

    /// Passes over the ends of connections that were not accepted, and takes in the next report after
    /// them.
    pub fn next_event<E>(&mut self, queue: &mut VecDeque<InternEvent<C, E>>) -> (res: Processed<E>)
        requires
            old(self).wf(),
            old(self)@ matches Some(running) ==> forall|i: int|
                0 <= i < old(queue)@.len() ==> running.knows_transport(#[trigger] old(queue)@[i]),
        ensures
            final(self).wf(),
            final(self).chans() == old(self).chans(),
            match old(self)@ {
                None => {
                    &&& final(self)@ is None
                    &&& final(queue)@ == old(queue)@
                    &&& res.event is None
                    &&& !res.server_is_up
                },
                Some(running) => next_told(
                    running,
                    final(self)@,
                    old(queue)@,
                    final(queue)@,
                    res,
                ),
            },
    {
        self.pass_over(queue);
        let ghost mid = self@;
        let ghost mid_queue = queue@;
        proof {
            if let Some(running) = old(self)@ {
                let k = choose|k: int| #[trigger]
                    passed_at(running, mid->0, old(queue)@, mid_queue, k);
                lemma_absorbed_keeps_up(running, old(queue)@.take(k));
                if mid_queue.len() > 0 {
                    assert(mid_queue[0] == old(queue)@[k]);
                }
            }
        }
        let res = self.process_events(queue);
        assert(old(self)@ is Some ==> next_told_by(
            old(self)@->0,
            self@,
            old(queue)@,
            queue@,
            res,
            mid->0,
            mid_queue,
        ));
        res
    }

    /// Takes in what a transport reports.
    pub fn process_event<E>(&mut self, event: InternEvent<C, E>) -> (res: Processed<E>)
        requires
            old(self).wf(),
            old(self)@ matches Some(running) ==> running.can_process(event),
        ensures
            final(self).wf(),
            final(self).chans() == old(self).chans(),
            match old(self)@ {
                None => final(self)@ is None && res.event is None && !res.server_is_up,
                Some(running) => processed(running, final(self)@, event, res),
            },
    {
        let ghost added = match event {
            InternEvent::IncomingConnection(handle, _) => set![handle],
            _ => set![],
        };
        let mut stopped = false;
        let mut server_is_up = false;
        let told = match &mut self.state {
            ServerState::Disconnected => None,
            ServerState::Running(running) => match event {
                InternEvent::TransportIsUp(idx) => {
                    let i: usize = idx.0 as usize;
                    running.up[i] = true;
                    server_is_up = all_true(&running.up);
                    Some(ServerEvent::TransportIsUp(idx))
                },
                InternEvent::ServerIsUp => Some(ServerEvent::ServerIsUp),
                InternEvent::IncomingConnection(handle, connection) => {
                    running.incoming.insert(handle, connection);
                    Some(
                        ServerEvent::IncomingConnection(
                            IncomingConnection { handle, disconnect_on_drop: true },
                        ),
                    )
                },
                InternEvent::Disconnected(handle) => {
                    running.connections.remove(&handle);
                    Some(ServerEvent::Disconnected(handle))
                },
                InternEvent::DisconnectedSelf(error) => {
                    stopped = true;
                    Some(ServerEvent::DisconnectedSelf(error))
                },
                InternEvent::Error(handle, error) => Some(ServerEvent::Error(handle, error)),
            },
        };
        if stopped {
            self.state = ServerState::Disconnected;
        }
        proof {
            if let (Some(before), Some(after)) = (old(self)@, self@) {
                before.lemma_stays_wf(after, added);
            }
        }
        Processed { event: told, server_is_up }
    }

    /// Sends a message on a connection. The task tells its transport.
    pub fn send_to<T: NetworkMessage>(&self, message: T, handle: ConnectionHandle) -> (res: Option<
        (TransportIdx, RunnerTask<T>),
    >)
        requires
            self.wf(),
            self.chans().sends().contains_key(T::CHANNEL_ID),
            self@ matches Some(running) ==> running.has_transport(handle.transport_idx),
        ensures
            res == if self@ is Some {
                Some(send_task::<T>(Arc::new(message), handle))
            } else {
                None
            },
    {
        let channel_id = self.channels.send_channel_id::<T>();
        match &self.state {
            ServerState::Disconnected => None,
            ServerState::Running(_) => Some(
                (
                    handle.transport_idx,
                    RunnerTask::SendTo {
                        message: Arc::new(message),
                        connection_idx: handle.connection_idx,
                        channel_id,
                        channel_config: T::CHANNEL_CONFIG,
                    },
                ),
            ),
        }
    }

    /// Sends a message on the connections of `handles`.
    fn send_to_all<T: NetworkMessage>(&self, message: T, handles: &Vec<ConnectionHandle>) -> (res:
        Vec<(TransportIdx, RunnerTask<T>)>)
        requires
            self.wf(),
            self.chans().sends().contains_key(T::CHANNEL_ID),
        ensures
            res@ == send_tasks::<T>(Arc::new(message), handles@),
    {
        let channel_id = self.channels.send_channel_id::<T>();
        let message = Arc::new(message);
        let mut tasks: Vec<(TransportIdx, RunnerTask<T>)> = Vec::new();
        let mut i: usize = 0;
        while i < handles.len()
            invariant
                i <= handles@.len(),
                channel_id == ChannelId::of(T::CHANNEL_ID),
                tasks@ == send_tasks::<T>(message, handles@.take(i as int)),
            decreases handles@.len() - i,
        {
            let handle = handles[i];
            tasks.push(
                (
                    handle.transport_idx,
                    RunnerTask::SendTo {
                        message: Arc::clone(&message),
                        connection_idx: handle.connection_idx,
                        channel_id,
                        channel_config: T::CHANNEL_CONFIG,
                    },
                ),
            );
            i = i + 1;
        }
        assert(handles@.take(i as int) =~= handles@);
        tasks
    }

    /// Sends a message on every connection that was accepted.
    pub fn broadcast<T: NetworkMessage>(&self, message: T) -> (res: Vec<
        (TransportIdx, RunnerTask<T>),
    >)
        requires
            self.wf(),
            self.chans().sends().contains_key(T::CHANNEL_ID),
        ensures
            match self@ {
                None => res@.len() == 0,
                Some(running) => sends_on::<T>(res@, message, running.connections.dom()),
            },
    {
        match &self.state {
            ServerState::Disconnected => Vec::new(),
            ServerState::Running(running) => {
                let handles = running.connections.handles();
                assert(walks(handles@, self@->0.connections.dom()));
                self.send_to_all(message, &handles)
            },
        }
    }

    /// Sends a message on every connection that was accepted but `except`.
    pub fn broadcast_except<T: NetworkMessage>(
        &self,
        message: T,
        except: ConnectionHandle,
    ) -> (res: Vec<(TransportIdx, RunnerTask<T>)>)
        requires
            self.wf(),
            self.chans().sends().contains_key(T::CHANNEL_ID),
        ensures
            match self@ {
                None => res@.len() == 0,
                Some(running) => sends_on::<T>(
                    res@,
                    message,
                    running.connections.dom().remove(except),
                ),
            },
    {
        match &self.state {
            ServerState::Disconnected => Vec::new(),
            ServerState::Running(running) => {
                let handles = without(&running.connections.handles(), except);
                assert(walks(handles@, self@->0.connections.dom().remove(except)));
                self.send_to_all(message, &handles)
            },
        }
    }

    /// The connection of `handle`, to receive what has arrived on it, if it was accepted.
    pub fn recv_from(&self, handle: ConnectionHandle) -> (res: Option<&Arc<C>>)
        ensures
            match self@ {
                Some(running) if running.connections.contains_key(handle) => res == Some(
                    &running.connections[handle],
                ),
                _ => res is None,
            },
    {
        match &self.state {
            ServerState::Disconnected => None,
            ServerState::Running(running) => running.connections.get(&handle),
        }
    }

    /// The connections that were accepted, to receive what has arrived on them.
    pub fn recv(&self) -> (res: Vec<(ConnectionHandle, Arc<C>)>)
        ensures
            match self@ {
                None => res@.len() == 0,
                Some(running) => {
                    &&& walks(
                        res@.map_values(|from: (ConnectionHandle, Arc<C>)| from.0),
                        running.connections.dom(),
                    )
                    &&& forall|i: int|
                        0 <= i < res@.len() ==> (#[trigger] res@[i]).1
                            == running.connections[res@[i].0]
                },
            },
    {
        let mut connections: Vec<(ConnectionHandle, Arc<C>)> = Vec::new();
        if let ServerState::Running(running) = &self.state {
            let handles = running.connections.handles();
            let mut i: usize = 0;
            while i < handles.len()
                invariant
                    i <= handles@.len(),
                    handles@.to_set() == running.connections@.dom(),
                    connections@.len() == i,
                    forall|j: int|
                        0 <= j < i ==> (#[trigger] connections@[j]).0 == handles@[j]
                            && connections@[j].1 == running.connections@[handles@[j]],
                decreases handles@.len() - i,
            {
                let handle = handles[i];
                assert(handles@.to_set().contains(handle));
                if let Some(connection) = running.connections.get(&handle) {
                    connections.push((handle, Arc::clone(connection)));
                }
                i = i + 1;
            }
            assert(connections@.map_values(|from: (ConnectionHandle, Arc<C>)| from.0) =~= handles@);
        }
        connections
    }
}

/// The tasks `tasks` send `message` on every connection of `connections`.
pub open spec fn sends_on<T: NetworkMessage>(
    tasks: Seq<(TransportIdx, RunnerTask<T>)>,
    message: T,
    connections: Set<ConnectionHandle>,
) -> bool {
    exists|handles: Seq<ConnectionHandle>|
        #[trigger] walks(handles, connections) && tasks == send_tasks::<T>(
            Arc::new(message),
            handles,
        )
}

/// What the report `event` makes of a server that runs, and what comes of it.
pub open spec fn processed<C, E>(
    running: ServerView<C>,
    after: Option<ServerView<C>>,
    event: InternEvent<C, E>,
    res: Processed<E>,
) -> bool {
    match event {
        InternEvent::TransportIsUp(idx) => {
            let up = running.up.update(idx.0 as int, true);
            &&& after == Some(ServerView { up, ..running })
            &&& res.event == Some(ServerEvent::<E>::TransportIsUp(idx))
            &&& res.server_is_up <==> (forall|i: int| 0 <= i < up.len() ==> #[trigger] up[i])
        },
        InternEvent::ServerIsUp => {
            &&& after == Some(running)
            &&& res.event == Some(ServerEvent::<E>::ServerIsUp)
            &&& !res.server_is_up
        },
        InternEvent::IncomingConnection(handle, connection) => {
            &&& after == Some(
                ServerView { incoming: running.incoming.insert(handle, connection), ..running },
            )
            &&& res.event matches Some(ServerEvent::IncomingConnection(incoming))
            &&& incoming.of() == handle
            &&& incoming.is_open()
            &&& !res.server_is_up
        },
        InternEvent::Disconnected(handle) => {
            &&& after == Some(
                ServerView { connections: running.connections.remove(handle), ..running },
            )
            &&& res.event == Some(ServerEvent::<E>::Disconnected(handle))
            &&& !res.server_is_up
        },
        InternEvent::DisconnectedSelf(error) => {
            &&& after is None
            &&& res.event == Some(ServerEvent::DisconnectedSelf(error))
            &&& !res.server_is_up
        },
        InternEvent::Error(handle, error) => {
            &&& after == Some(running)
            &&& res.event == Some(ServerEvent::Error(handle, error))
            &&& !res.server_is_up
        },
    }
}

/// `event` is the end of a connection that was not accepted.
pub open spec fn is_refused<C, E>(running: ServerView<C>, event: InternEvent<C, E>) -> bool {
    event matches InternEvent::Disconnected(handle) && !running.connections.contains_key(handle)
}

/// Each of `events` is the end of a connection that was not accepted.
pub open spec fn passed_over<C, E>(running: ServerView<C>, events: Seq<InternEvent<C, E>>) -> bool {
    forall|i: int| 0 <= i < events.len() ==> is_refused(running, #[trigger] events[i])
}

/// What a server knows after it has passed over `events`: the connections of which these are the end
/// wait no more to be accepted.
pub open spec fn absorbed<C, E>(
    running: ServerView<C>,
    events: Seq<InternEvent<C, E>>,
) -> ServerView<C>
    decreases events.len(),
{
    if events.len() == 0 {
        running
    } else {
        let before = absorbed(running, events.drop_last());
        match events.last() {
            InternEvent::Disconnected(handle) => ServerView {
                incoming: before.incoming.remove(handle),
                ..before
            },
            _ => before,
        }
    }
}

/// What a server that runs makes of the ends of connections that were not accepted, where `k` reports
/// at the front of `queue` are such and the next is not.
pub open spec fn passed_at<C, E>(
    running: ServerView<C>,
    after: ServerView<C>,
    queue: Seq<InternEvent<C, E>>,
    left: Seq<InternEvent<C, E>>,
    k: int,
) -> bool {
    &&& 0 <= k <= queue.len()
    &&& passed_over(running, queue.take(k))
    &&& after == absorbed(running, queue.take(k))
    &&& after.connections == running.connections
    &&& left == queue.skip(k)
    &&& k < queue.len() ==> !is_refused(running, queue[k])
}

/// What a server that runs makes of the ends of connections that were not accepted.
pub open spec fn passed<C, E>(
    running: ServerView<C>,
    after: ServerView<C>,
    queue: Seq<InternEvent<C, E>>,
    left: Seq<InternEvent<C, E>>,
) -> bool {
    exists|k: int| #[trigger] passed_at(running, after, queue, left, k)
}

/// What the first report of `queue` makes of a server that runs, and what comes of it.
pub open spec fn processed_next<C, E>(
    running: ServerView<C>,
    after: Option<ServerView<C>>,
    queue: Seq<InternEvent<C, E>>,
    left: Seq<InternEvent<C, E>>,
    res: Processed<E>,
) -> bool {
    &&& processed(running, after, queue[0], res)
    &&& left == if res.server_is_up {
        queue.drop_first().push(InternEvent::ServerIsUp)
    } else {
        queue.drop_first()
    }
}

/// The server that runs passes over reports, after which it knows `mid` and `mid_queue` is left, and
/// takes in the first of those, if there is one.
pub open spec fn next_told_by<C, E>(
    running: ServerView<C>,
    after: Option<ServerView<C>>,
    queue: Seq<InternEvent<C, E>>,
    left: Seq<InternEvent<C, E>>,
    res: Processed<E>,
    mid: ServerView<C>,
    mid_queue: Seq<InternEvent<C, E>>,
) -> bool {
    &&& passed(running, mid, queue, mid_queue)
    &&& if mid_queue.len() > 0 {
        processed_next(mid, after, mid_queue, left, res) && res.event is Some
    } else {
        &&& after == Some(mid)
        &&& left == mid_queue
        &&& res.event is None
        &&& !res.server_is_up
    }
}

/// What `next_event` makes of a server that runs, and what comes of it.
pub open spec fn next_told<C, E>(
    running: ServerView<C>,
    after: Option<ServerView<C>>,
    queue: Seq<InternEvent<C, E>>,
    left: Seq<InternEvent<C, E>>,
    res: Processed<E>,
) -> bool {
    exists|mid: ServerView<C>, mid_queue: Seq<InternEvent<C, E>>| #[trigger]
        next_told_by(running, after, queue, left, res, mid, mid_queue)
}

/// What came from each connection, one after the other.
pub open spec fn joined<M>(batches: Seq<Vec<(M, ConnectionHandle)>>) -> Seq<(M, ConnectionHandle)>
    decreases batches.len(),
{
    if batches.len() == 0 {
        Seq::empty()
    } else {
        joined(batches.drop_last()) + batches.last()@
    }
}

/// Puts together what was received from each of the connections that `Server::recv` gives.
pub fn join_received<M>(batches: Vec<Vec<(M, ConnectionHandle)>>) -> (res: Vec<
    (M, ConnectionHandle),
>)
    ensures
        res@ == joined(batches@),
{
    let mut batches = batches;
    let ghost given = batches@;
    let mut all: Vec<(M, ConnectionHandle)> = Vec::new();
    let mut i: usize = 0;
    while i < batches.len()
        invariant
            i <= batches@.len(),
            batches@.len() == given.len(),
            forall|j: int| i <= j < given.len() ==> batches@[j] == #[trigger] given[j],
            all@ == joined(given.take(i as int)),
        decreases batches@.len() - i,
    {
        assert(batches@[i as int] == given[i as int]);
        all.append(&mut batches[i]);
        assert(given.take(i + 1).drop_last() =~= given.take(i as int));
        i = i + 1;
    }
    assert(given.take(i as int) =~= given);
    all
}

/// Batch number `i` holds what waits on the connection of `handles[i]`, with that handle.
pub open spec fn drained<M>(
    batches: Seq<Vec<(M, ConnectionHandle)>>,
    handles: Seq<ConnectionHandle>,
    waiting: Map<ConnectionHandle, Seq<M>>,
) -> bool {
    &&& batches.len() == handles.len()
    &&& forall|i: int|
        0 <= i < batches.len() ==> (#[trigger] batches[i])@.len() == waiting[handles[i]].len()
    &&& forall|i: int, j: int|
        0 <= i < batches.len() && 0 <= j < waiting[handles[i]].len()
            ==> #[trigger] batches[i]@[j] == (waiting[handles[i]][j], handles[i])
}

/// What came from the connection of `handle`, in order.
pub open spec fn coming_from<M>(
    received: Seq<(M, ConnectionHandle)>,
    handle: ConnectionHandle,
) -> Seq<(M, ConnectionHandle)> {
    received.filter(|from: (M, ConnectionHandle)| from.1 == handle)
}

/// Receiving from every connection gives every message that waits on one of them once, with the handle
/// of its connection, those of one connection in the order in which they arrived, and nothing else.
pub proof fn lemma_received_from_each<M>(
    batches: Seq<Vec<(M, ConnectionHandle)>>,
    handles: Seq<ConnectionHandle>,
    connections: Set<ConnectionHandle>,
    waiting: Map<ConnectionHandle, Seq<M>>,
    handle: ConnectionHandle,
)
    requires
        walks(handles, connections),
        drained(batches, handles, waiting),
    ensures
        ({
            let from = coming_from(joined(batches), handle);
            &&& connections.contains(handle) ==> from.len() == waiting[handle].len()
            &&& connections.contains(handle) ==> forall|i: int|
                0 <= i < waiting[handle].len() ==> #[trigger] from[i] == (
                    waiting[handle][i],
                    handle,
                )
            &&& !connections.contains(handle) ==> from.len() == 0
        }),
{
    lemma_received_from(batches, handles, waiting, handle);
    crate::connection::lemma_tagged_each(waiting[handle], handle);
    if connections.contains(handle) {
        assert(handles.to_set().contains(handle));
    } else {
        assert(handles.contains(handle) ==> handles.to_set().contains(handle));
    }
}

/// What came from a connection are the items with its handle, all of them and in their order.
pub proof fn lemma_coming_from_item_by_item<M>(
    received: Seq<(M, ConnectionHandle)>,
    message: M,
    from: ConnectionHandle,
    handle: ConnectionHandle,
)
    ensures
        coming_from(Seq::<(M, ConnectionHandle)>::empty(), handle).len() == 0,
        coming_from(received.push((message, from)), handle) == if from == handle {
            coming_from(received, handle).push((message, from))
        } else {
            coming_from(received, handle)
        },
{
    reveal(Seq::filter);
    assert(received.push((message, from)).drop_last() =~= received);
}

/// What is put together starts with nothing, and every batch more is added behind what is there, whole
/// and in its order.
pub proof fn lemma_joined_batch_by_batch<M>(
    batches: Seq<Vec<(M, ConnectionHandle)>>,
    batch: Vec<(M, ConnectionHandle)>,
)
    ensures
        joined(Seq::<Vec<(M, ConnectionHandle)>>::empty()).len() == 0,
        joined(batches.push(batch)) == joined(batches) + batch@,
{
    assert(batches.push(batch).drop_last() =~= batches);
}

proof fn lemma_received_from<M>(
    batches: Seq<Vec<(M, ConnectionHandle)>>,
    handles: Seq<ConnectionHandle>,
    waiting: Map<ConnectionHandle, Seq<M>>,
    handle: ConnectionHandle,
)
    requires
        handles.no_duplicates(),
        drained(batches, handles, waiting),
    ensures
        coming_from(joined(batches), handle) == if handles.contains(handle) {
            crate::connection::tagged(waiting[handle], handle)
        } else {
            Seq::empty()
        },
    decreases batches.len(),
{
    reveal(Seq::filter);
    let pred = |from: (M, ConnectionHandle)| from.1 == handle;
    if batches.len() > 0 {
        let n = batches.len() - 1;
        let before = batches.drop_last();
        let last = batches.last()@;
        assert forall|i: int| 0 <= i < before.len() implies (#[trigger] before[i])@.len()
            == waiting[handles.drop_last()[i]].len() by {
            assert(batches[i] == before[i]);
        }
        assert forall|i: int, j: int|
            0 <= i < before.len() && 0 <= j < waiting[handles.drop_last()[i]].len() implies
            #[trigger] before[i]@[j] == (
            waiting[handles.drop_last()[i]][j],
            handles.drop_last()[i],
        ) by {
            assert(batches[i]@[j] == (waiting[handles[i]][j], handles[i]));
        }
        lemma_received_from(before, handles.drop_last(), waiting, handle);
        assert(batches[n]@ =~= crate::connection::tagged(waiting[handles[n]], handles[n]));
        Seq::filter_distributes_over_add(joined(before), last, pred);
        lemma_filter_one(last, handles[n], handle);
        if handles.drop_last().contains(handle) {
            let j = choose|j: int| 0 <= j < n && handles.drop_last()[j] == handle;
            assert(handles[j] == handle);
            assert(handles[n] != handle);
        } else if handles.contains(handle) {
            let j = choose|j: int| 0 <= j < handles.len() && handles[j] == handle;
            if j < n {
                assert(handles.drop_last()[j] == handle);
            }
        }
        if handles[n] == handle {
            assert(handles.contains(handles[n]));
        }
        assert(coming_from(joined(batches), handle) =~= coming_from(joined(before), handle)
            + coming_from(last, handle));
    }
}

/// All or nothing of what came from one connection came from that of `handle`.
proof fn lemma_filter_one<M>(
    batch: Seq<(M, ConnectionHandle)>,
    from: ConnectionHandle,
    handle: ConnectionHandle,
)
    requires
        forall|i: int| 0 <= i < batch.len() ==> (#[trigger] batch[i]).1 == from,
    ensures
        coming_from(batch, handle) == if from == handle {
            batch
        } else {
            Seq::empty()
        },
    decreases batch.len(),
{
    reveal(Seq::filter);
    if batch.len() > 0 {
        let before = batch.drop_last();
        assert forall|i: int| 0 <= i < before.len() implies (#[trigger] before[i]).1 == from by {
            assert(batch[i] == before[i]);
        }
        lemma_filter_one(before, from, handle);
        assert(batch[batch.len() - 1].1 == from);
        assert(before.push(batch.last()) =~= batch);
    }
}

/// `handles` without `except`.
fn without(handles: &Vec<ConnectionHandle>, except: ConnectionHandle) -> (res: Vec<
    ConnectionHandle,
>)
    requires
        handles@.no_duplicates(),
    ensures
        walks(res@, handles@.to_set().remove(except)),
{
    let mut kept: Vec<ConnectionHandle> = Vec::new();
    let mut i: usize = 0;
    while i < handles.len()
        invariant
            i <= handles@.len(),
            handles@.no_duplicates(),
            kept@.no_duplicates(),
            kept@.to_set() == handles@.take(i as int).to_set().remove(except),
        decreases handles@.len() - i,
    {
        let handle = handles[i];
        let ghost seen = handles@.take(i as int);
        proof {
            assert(handles@.take(i + 1) =~= seen.push(handle));
            seen.lemma_push_to_set_commute(handle);
            kept@.lemma_push_to_set_commute(handle);
            assert(!seen.contains(handle));
            assert(kept@.contains(handle) ==> kept@.to_set().contains(handle));
        }
        if handle != except {
            kept.push(handle);
        }
        assert(kept@.to_set() =~= handles@.take(i + 1).to_set().remove(except));
        i = i + 1;
    }
    assert(handles@.take(i as int) =~= handles@);
    kept
}

/// Whether every item is `true`.
fn all_true(items: &Vec<bool>) -> (res: bool)
    ensures
        res <==> (forall|i: int| 0 <= i < items@.len() ==> #[trigger] items@[i]),
{
    let mut i: usize = 0;
    while i < items.len()
        invariant
            i <= items@.len(),
            forall|j: int| 0 <= j < i ==> #[trigger] items@[j],
        decreases items@.len() - i,
    {
        if !items[i] {
            return false;
        }
        i = i + 1;
    }
    true
}

/// What a server that runs knows, and the reports that wait for it.
#[verifier::ext_equal]
pub struct Moment<C, E> {
    pub view: ServerView<C>,
    pub queue: Seq<InternEvent<C, E>>,
}

/// Something that happens to a server while it runs.
pub enum Happening<C, E> {
    /// A transport reports.
    Reported(InternEvent<C, E>),
    /// `process_events` takes in a report.
    Told(Processed<E>),
    /// `pass_over` takes reports away.
    PassedOver,
    /// `accept` accepts a connection.
    Accepted(ConnectionHandle),
    /// `disconnect` ends a connection.
    Ended(ConnectionHandle),
}

impl<C, E> Happening<C, E> {
    /// What the user is told.
    pub open spec fn told(self) -> Option<ServerEvent<E>> {
        match self {
            Happening::Told(res) => res.event,
            _ => None,
        }
    }

    /// It leads from `before` to `after`. The report that all transports are up comes from the server
    /// alone, never from a transport.
    pub open spec fn leads(self, before: Moment<C, E>, after: Moment<C, E>) -> bool {
        match self {
            Happening::Reported(event) => {
                &&& event !is ServerIsUp
                &&& after.view == before.view
                &&& after.queue == before.queue.push(event)
            },
            Happening::Told(res) => {
                &&& before.queue.len() > 0
                &&& before.view.can_process(before.queue[0])
                &&& processed_next(
                    before.view,
                    Some(after.view),
                    before.queue,
                    after.queue,
                    res,
                )
            },
            Happening::PassedOver => passed(before.view, after.view, before.queue, after.queue),
            Happening::Accepted(handle) => {
                &&& before.view.incoming.contains_key(handle)
                &&& after.view == before.view.accepted(handle)
                &&& after.queue == before.queue
            },
            Happening::Ended(handle) => {
                &&& after.view == (ServerView {
                    connections: before.view.connections.remove(handle),
                    ..before.view
                })
                &&& after.queue == before.queue
            },
        }
    }
}

/// A server that has just been started goes through `moments`, from one to the next by `happenings`.
pub open spec fn runs<C, E>(
    moments: Seq<Moment<C, E>>,
    happenings: Seq<Happening<C, E>>,
) -> bool {
    &&& moments.len() == happenings.len() + 1
    &&& forall|i: int| 0 <= i < moments[0].view.up.len() ==> !#[trigger] moments[0].view.up[i]
    &&& moments[0].view.connections == Map::<ConnectionHandle, Arc<C>>::empty()
    &&& moments[0].queue == Seq::<InternEvent<C, E>>::empty()
    &&& forall|k: int|
        0 <= k < happenings.len() ==> (#[trigger] happenings[k]).leads(moments[k], moments[k + 1])
}

/// The user was told before happening number `k` that transport `i` is up.
pub open spec fn told_up_before<C, E>(happenings: Seq<Happening<C, E>>, k: int, i: int) -> bool {
    exists|j: int|
        0 <= j < k && (#[trigger] happenings[j].told() matches Some(ServerEvent::TransportIsUp(idx))
            && idx.0 == i)
}

/// The user was told before happening number `k` of each of `transports` transports that it is up.
pub open spec fn told_all_up_before<C, E>(
    happenings: Seq<Happening<C, E>>,
    k: int,
    transports: nat,
) -> bool {
    forall|i: int| 0 <= i < transports ==> #[trigger] told_up_before(happenings, k, i)
}

/// The user is told that the server is up only after having been told of each of its transports that
/// it is up. The report of that is queued, behind all others, by exactly those tellings of a
/// transport after which this holds.
pub proof fn lemma_up_when_all_are<C, E>(
    moments: Seq<Moment<C, E>>,
    happenings: Seq<Happening<C, E>>,
    k: int,
)
    requires
        runs(moments, happenings),
        0 <= k < happenings.len(),
    ensures
        happenings[k].told() is Some && happenings[k].told()->0 is ServerIsUp
            ==> told_all_up_before(happenings, k, moments[0].view.up.len()),
        happenings[k].told() is Some && happenings[k].told()->0 is TransportIsUp
            ==> moments[k + 1].queue == if told_all_up_before(
            happenings,
            k + 1,
            moments[0].view.up.len(),
        ) {
            moments[k].queue.drop_first().push(InternEvent::ServerIsUp)
        } else {
            moments[k].queue.drop_first()
        },
{
    lemma_up_as_told(moments, happenings, k);
    lemma_up_as_told(moments, happenings, k + 1);
    let before = moments[k];
    let after = moments[k + 1];
    assert(happenings[k].leads(before, after));
    let told = happenings[k].told();
    if told is Some && told->0 is ServerIsUp {
        assert(before.queue.contains(before.queue[0]));
        assert(before.queue[0] is ServerIsUp);
        assert forall|i: int| 0 <= i < before.view.up.len() implies #[trigger] told_up_before(
            happenings,
            k,
            i,
        ) by {
            assert(before.view.up[i]);
        }
    }
    if told is Some && told->0 is TransportIsUp {
        let up = after.view.up;
        assert(before.queue[0] is TransportIsUp);
        if told_all_up_before(happenings, k + 1, up.len()) {
            assert forall|i: int| 0 <= i < up.len() implies #[trigger] up[i] by {
                assert(told_up_before(happenings, k + 1, i));
            }
        }
        if forall|i: int| 0 <= i < up.len() ==> #[trigger] up[i] {
            assert forall|i: int| 0 <= i < up.len() implies #[trigger] told_up_before(
                happenings,
                k + 1,
                i,
            ) by {
                assert(up[i]);
            }
        }
    }
}

/// After `k` happenings the transports that are up are those of which the user was told so, and the
/// report that all are up waits only if they are.
proof fn lemma_up_as_told<C, E>(
    moments: Seq<Moment<C, E>>,
    happenings: Seq<Happening<C, E>>,
    k: int,
)
    requires
        runs(moments, happenings),
        0 <= k <= happenings.len(),
    ensures
        moments[k].view.up.len() == moments[0].view.up.len(),
        forall|i: int|
            0 <= i < moments[k].view.up.len() ==> (#[trigger] moments[k].view.up[i]
                <==> told_up_before(happenings, k, i)),
        forall|m: int|
            0 <= m < moments[k].queue.len() && (#[trigger] moments[k].queue[m]) is ServerIsUp ==> (
            forall|i: int|
                0 <= i < moments[k].view.up.len() ==> #[trigger] moments[k].view.up[i]),
    decreases k,
{
    if k > 0 {
        lemma_up_as_told(moments, happenings, k - 1);
        let before = moments[k - 1];
        let after = moments[k];
        let happening = happenings[k - 1];
        assert(happening.leads(before, after));
        if happening is PassedOver {
            let passed_by = choose|n: int| #[trigger]
                passed_at(before.view, after.view, before.queue, after.queue, n);
            lemma_absorbed_keeps_up(before.view, before.queue.take(passed_by));
            assert forall|m: int|
                0 <= m < after.queue.len() && (#[trigger] after.queue[m]) is ServerIsUp implies (
            forall|i: int| 0 <= i < after.view.up.len() ==> #[trigger] after.view.up[i]) by {
                assert(before.queue[passed_by + m] is ServerIsUp);
            }
        }
        if happening is Told {
            assert forall|m: int|
                0 <= m < after.queue.len() && (#[trigger] after.queue[m]) is ServerIsUp implies (
            forall|i: int| 0 <= i < after.view.up.len() ==> #[trigger] after.view.up[i]) by {
                if m < before.queue.len() - 1 {
                    assert(before.queue[m + 1] is ServerIsUp);
                }
            }
        }
        if happening is Reported {
            assert forall|m: int|
                0 <= m < after.queue.len() && (#[trigger] after.queue[m]) is ServerIsUp implies (
            forall|i: int| 0 <= i < after.view.up.len() ==> #[trigger] after.view.up[i]) by {
                assert(before.queue[m] is ServerIsUp);
            }
        }
        assert forall|i: int| 0 <= i < after.view.up.len() implies (#[trigger] after.view.up[i]
            <==> told_up_before(happenings, k, i)) by {
            let newly = happening.told() matches Some(ServerEvent::TransportIsUp(idx)) && idx.0
                == i;
            assert(after.view.up[i] <==> before.view.up[i] || newly);
            if told_up_before(happenings, k - 1, i) {
                let j = choose|j: int|
                    0 <= j < k - 1 && (#[trigger] happenings[j].told() matches Some(
                        ServerEvent::TransportIsUp(idx),
                    ) && idx.0 == i);
                assert(happenings[j].told() is Some);
            }
            if newly {
                assert(happenings[k - 1].told() is Some);
            }
        }
    }
}

/// Passing over reports changes neither which transports are up nor which connections were accepted.
proof fn lemma_absorbed_keeps_up<C, E>(running: ServerView<C>, events: Seq<InternEvent<C, E>>)
    ensures
        absorbed(running, events).up == running.up,
        absorbed(running, events).connections == running.connections,
    decreases events.len(),
{
    if events.len() > 0 {
        lemma_absorbed_keeps_up(running, events.drop_last());
    }
}

/// Happening number `j` accepts `handle`, and its end was not told since, up to happening number `k`.
pub open spec fn accepted_since<C, E>(
    happenings: Seq<Happening<C, E>>,
    handle: ConnectionHandle,
    j: int,
    k: int,
) -> bool {
    &&& 0 <= j < k
    &&& happenings[j] matches Happening::Accepted(accepted)
    &&& accepted == handle
    &&& forall|m: int|
        j < m < k ==> !tells_end(#[trigger] happenings[m], handle)
}

/// The user is told of the end of `handle`.
pub open spec fn tells_end<C, E>(happening: Happening<C, E>, handle: ConnectionHandle) -> bool {
    happening.told() matches Some(ServerEvent::Disconnected(ended)) && ended == handle
}

/// The user hears of the end of a connection only if it was accepted, and once for each time that it
/// was. It is then no longer one of the connections, and no other is touched.
pub proof fn lemma_end_told_once<C, E>(
    moments: Seq<Moment<C, E>>,
    happenings: Seq<Happening<C, E>>,
    handle: ConnectionHandle,
    k: int,
)
    requires
        runs(moments, happenings),
        0 <= k < happenings.len(),
        tells_end(happenings[k], handle),
    ensures
        moments[k].view.connections.contains_key(handle),
        moments[k + 1].view == (ServerView {
            connections: moments[k].view.connections.remove(handle),
            ..moments[k].view
        }),
        exists|j: int| #[trigger] accepted_since(happenings, handle, j, k),
{
    assert(happenings[k].leads(moments[k], moments[k + 1]));
    assert(moments[k].queue[0] matches InternEvent::Disconnected(ended) && ended == handle);
    lemma_connected_since(moments, happenings, handle, k);
}

/// Who is connected after `k` happenings was accepted before, and its end was not told since.
proof fn lemma_connected_since<C, E>(
    moments: Seq<Moment<C, E>>,
    happenings: Seq<Happening<C, E>>,
    handle: ConnectionHandle,
    k: int,
)
    requires
        runs(moments, happenings),
        0 <= k <= happenings.len(),
        moments[k].view.connections.contains_key(handle),
    ensures
        exists|j: int| #[trigger] accepted_since(happenings, handle, j, k),
    decreases k,
{
    if k > 0 {
        let before = moments[k - 1];
        let happening = happenings[k - 1];
        assert(happening.leads(before, moments[k]));
        if happening matches Happening::Accepted(accepted) && accepted == handle {
            assert(accepted_since(happenings, handle, k - 1, k));
        } else {
            assert(before.view.connections.contains_key(handle));
            assert(!tells_end(happening, handle));
            lemma_connected_since(moments, happenings, handle, k - 1);
            let j = choose|j: int| #[trigger] accepted_since(happenings, handle, j, k - 1);
            assert(accepted_since(happenings, handle, j, k));
        }
    }
}

/// A connection is not both accepted and waiting to be. This stays so while a connection that comes
/// in is not one of those that were accepted, and when one that waits is accepted.
pub proof fn lemma_accepted_or_waiting<C, E>(
    running: ServerView<C>,
    after: ServerView<C>,
    event: InternEvent<C, E>,
    res: Processed<E>,
)
    requires
        running.connections.dom().disjoint(running.incoming.dom()),
        processed(running, Some(after), event, res),
        event matches InternEvent::IncomingConnection(handle, _)
            ==> !running.connections.contains_key(handle),
    ensures
        after.connections.dom().disjoint(after.incoming.dom()),
        forall|handle: ConnectionHandle|
            after.incoming.contains_key(handle) ==> (#[trigger] after.accepted(
                handle,
            )).connections.dom().disjoint(after.accepted(handle).incoming.dom()),
{
}

/// A message for `connections` is sent once on each of them, and on no other connection.
pub proof fn lemma_sent_once_each<T: NetworkMessage>(
    tasks: Seq<(TransportIdx, RunnerTask<T>)>,
    message: T,
    connections: Set<ConnectionHandle>,
)
    requires
        sends_on::<T>(tasks, message, connections),
    ensures
        tasks.len() == connections.len(),
        tasks.no_duplicates(),
        forall|handle: ConnectionHandle| #[trigger]
            tasks.contains(send_task::<T>(Arc::new(message), handle)) <==> connections.contains(handle),
        forall|i: int|
            0 <= i < tasks.len() ==> ((#[trigger] tasks[i]).1 matches RunnerTask::SendTo {
                message: sent,
                connection_idx,
                channel_id,
                channel_config,
            } && *sent == message && channel_id.number() == T::CHANNEL_ID && channel_config
                == T::CHANNEL_CONFIG && connections.contains(
                ConnectionHandle { transport_idx: tasks[i].0, connection_idx },
            )),
        forall|handle: ConnectionHandle| #[trigger]
            connections.contains(handle) ==> exists|i: int|
                0 <= i < tasks.len() && (#[trigger] tasks[i]).0 == handle.transport_idx && (
                tasks[i].1 matches RunnerTask::SendTo { connection_idx, .. } && connection_idx
                    == handle.connection_idx),
{
    let shared = Arc::new(message);
    let handles = choose|handles: Seq<ConnectionHandle>|
        #[trigger] walks(handles, connections) && tasks == send_tasks::<T>(shared, handles);
    handles.unique_seq_to_set();
    ChannelId::of(T::CHANNEL_ID).lemma_number_roundtrip(T::CHANNEL_ID);
    assert forall|i: int, j: int| 0 <= i < j < tasks.len() implies tasks[i] != tasks[j] by {
        assert(handles[i] != handles[j]);
    }
    assert forall|i: int| 0 <= i < tasks.len() implies ((#[trigger] tasks[i]).1 matches RunnerTask::SendTo {
        message: sent,
        connection_idx,
        channel_id,
        channel_config,
    } && *sent == message && channel_id.number() == T::CHANNEL_ID && channel_config
        == T::CHANNEL_CONFIG && connections.contains(
        ConnectionHandle { transport_idx: tasks[i].0, connection_idx },
    )) by {
        assert(tasks[i] == send_task::<T>(shared, handles[i]));
        assert(handles.to_set().contains(handles[i]));
    }
    assert forall|handle: ConnectionHandle| #[trigger] connections.contains(handle) implies exists|
        i: int,
    |
        0 <= i < tasks.len() && (#[trigger] tasks[i]).0 == handle.transport_idx && (
        tasks[i].1 matches RunnerTask::SendTo { connection_idx, .. } && connection_idx
            == handle.connection_idx) by {
        assert(handles.to_set().contains(handle));
        let i = choose|i: int| 0 <= i < handles.len() && handles[i] == handle;
        assert(tasks[i] == send_task::<T>(shared, handle));
    }
    assert forall|handle: ConnectionHandle| #[trigger]
        tasks.contains(send_task::<T>(shared, handle)) <==> connections.contains(handle) by {
        if connections.contains(handle) {
            assert(handles.to_set().contains(handle));
            let i = choose|i: int| 0 <= i < handles.len() && handles[i] == handle;
            assert(tasks[i] == send_task::<T>(shared, handle));
        }
        if tasks.contains(send_task::<T>(shared, handle)) {
            let i = choose|i: int|
                0 <= i < tasks.len() && tasks[i] == send_task::<T>(shared, handle);
            assert(handles[i] == handle);
            assert(handles.to_set().contains(handle));
        }
    }
}

/// A message for one connection goes to the transport of the connection, under its number, on the
/// channel of its type and with the demands of that channel.
pub proof fn lemma_send_task_names<T: NetworkMessage>(message: Arc<T>, handle: ConnectionHandle)
    ensures
        send_task::<T>(message, handle).0 == handle.transport_idx,
        send_task::<T>(message, handle).1 matches RunnerTask::SendTo {
            message: sent,
            connection_idx,
            channel_id,
            channel_config,
        } && sent == message && connection_idx == handle.connection_idx && channel_id.number()
            == T::CHANNEL_ID && channel_config == T::CHANNEL_CONFIG,
{
    ChannelId::of(T::CHANNEL_ID).lemma_number_roundtrip(T::CHANNEL_ID);
}

/// The end of one connection goes to the transport of the connection, under its number, and the client
/// is told.
pub proof fn lemma_disconnect_task_names<M>(handle: ConnectionHandle)
    ensures
        disconnect_task::<M>(handle) == (
            handle.transport_idx,
            RunnerTask::<M>::Disconnect {
                connection_idx: handle.connection_idx,
                notify_client: true,
            },
        ),
{
}

/// Going through connections meets each of them once and nothing else.
pub proof fn lemma_walks_each_once(
    handles: Seq<ConnectionHandle>,
    connections: Set<ConnectionHandle>,
)
    requires
        walks(handles, connections),
    ensures
        handles.len() == connections.len(),
        forall|i: int, j: int| 0 <= i < j < handles.len() ==> handles[i] != handles[j],
        forall|i: int| 0 <= i < handles.len() ==> connections.contains(#[trigger] handles[i]),
        forall|handle: ConnectionHandle| #[trigger]
            connections.contains(handle) ==> exists|i: int|
                0 <= i < handles.len() && handles[i] == handle,
{
    handles.unique_seq_to_set();
    assert forall|i: int| 0 <= i < handles.len() implies connections.contains(
        #[trigger] handles[i],
    ) by {
        assert(handles.to_set().contains(handles[i]));
    }
    assert forall|handle: ConnectionHandle| #[trigger] connections.contains(handle) implies exists|
        i: int,
    | 0 <= i < handles.len() && handles[i] == handle by {
        assert(handles.to_set().contains(handle));
    }
}

impl<C, F> Server<C, F> {
    /// A server that is stopped or started anew ends every connection that was accepted, each once, and
    /// no other, and tells the client of each. One that does not run has nothing to end.
    pub proof fn lemma_ends_each_once<M>(&self, tasks: Seq<(TransportIdx, RunnerTask<M>)>)
        requires
            self.ends_connections(tasks),
        ensures
            self@ is None ==> tasks.len() == 0,
            self@ matches Some(running) ==> tasks.len() == running.connections.dom().len(),
            tasks.no_duplicates(),
            self@ matches Some(running) ==> forall|i: int|
                0 <= i < tasks.len() ==> ((#[trigger] tasks[i]).1 matches RunnerTask::Disconnect {
                    connection_idx,
                    notify_client,
                } && notify_client && running.connections.contains_key(
                    ConnectionHandle { transport_idx: tasks[i].0, connection_idx },
                )),
            self@ matches Some(running) ==> forall|handle: ConnectionHandle| #[trigger]
                running.connections.contains_key(handle) <==> tasks.contains(
                    (
                        handle.transport_idx,
                        RunnerTask::<M>::Disconnect {
                            connection_idx: handle.connection_idx,
                            notify_client: true,
                        },
                    ),
                ),
    {
        if let Some(running) = self@ {
            let connections = running.connections.dom();
            let handles = choose|handles: Seq<ConnectionHandle>|
                #[trigger] walks(handles, connections) && tasks == disconnect_tasks::<M>(handles);
            lemma_walks_each_once(handles, connections);
            assert forall|i: int, j: int| 0 <= i < j < tasks.len() implies tasks[i] != tasks[j] by {
                assert(handles[i] != handles[j]);
            }
            assert forall|i: int| 0 <= i < tasks.len() implies ((
            #[trigger] tasks[i]).1 matches RunnerTask::Disconnect { connection_idx, notify_client }
                && notify_client && running.connections.contains_key(
                ConnectionHandle { transport_idx: tasks[i].0, connection_idx },
            )) by {
                assert(tasks[i] == disconnect_task::<M>(handles[i]));
                assert(connections.contains(handles[i]));
            }
            assert forall|handle: ConnectionHandle| #[trigger]
                running.connections.contains_key(handle) <==> tasks.contains(
                (
                    handle.transport_idx,
                    RunnerTask::<M>::Disconnect {
                        connection_idx: handle.connection_idx,
                        notify_client: true,
                    },
                ),
            ) by {
                let task = (
                    handle.transport_idx,
                    RunnerTask::<M>::Disconnect {
                        connection_idx: handle.connection_idx,
                        notify_client: true,
                    },
                );
                if connections.contains(handle) {
                    let i = choose|i: int| 0 <= i < handles.len() && handles[i] == handle;
                    assert(tasks[i] == task);
                }
                if tasks.contains(task) {
                    let i = choose|i: int| 0 <= i < tasks.len() && tasks[i] == task;
                    assert(tasks[i] == disconnect_task::<M>(handles[i]));
                    assert(connections.contains(handles[i]));
                }
            }
        }
    }
}

impl<C> ServerView<C> {
    /// A server takes in every report but those of transports that it does not have, and of the end of
    /// connections that were not accepted.
    pub proof fn lemma_takes_in<E>(self, event: InternEvent<C, E>)
        ensures
            self.can_process(event) <==> match event {
                InternEvent::TransportIsUp(idx) => idx.0 < self.up.len(),
                InternEvent::IncomingConnection(handle, _) => handle.transport_idx.0
                    < self.up.len(),
                InternEvent::Disconnected(handle) => self.connections.contains_key(handle),
                _ => true,
            },
    {
    }

    /// A connection that is accepted waits no more and is held as it came. All others stay what they
    /// are.
    pub proof fn lemma_accepts_one(self, handle: ConnectionHandle)
        ensures
            ({
                let after = self.accepted(handle);
                &&& after.up == self.up
                &&& after.connections.contains_key(handle)
                &&& after.connections[handle] == self.incoming[handle]
                &&& !after.incoming.contains_key(handle)
                &&& forall|other: ConnectionHandle|
                    other != handle ==> (#[trigger] after.connections.contains_key(other)
                        <==> self.connections.contains_key(other))
                &&& forall|other: ConnectionHandle|
                    other != handle && self.connections.contains_key(other)
                        ==> #[trigger] after.connections[other] == self.connections[other]
                &&& forall|other: ConnectionHandle|
                    other != handle ==> (#[trigger] after.incoming.contains_key(other)
                        <==> self.incoming.contains_key(other))
                &&& forall|other: ConnectionHandle|
                    other != handle && self.incoming.contains_key(other)
                        ==> #[trigger] after.incoming[other] == self.incoming[other]
            }),
    {
    }
}

/// A report changes what it speaks of and nothing else. The end of the server ends it, and no other
/// report does. A transport that is up stays so, and the one that is reported to be up is. Only the
/// connection whose end is reported is held no more. A connection that comes in waits as it came, and
/// all that waited before go on waiting as they came.
pub proof fn lemma_report_touches_one<C, E>(
    running: ServerView<C>,
    after: Option<ServerView<C>>,
    event: InternEvent<C, E>,
    res: Processed<E>,
)
    requires
        running.can_process(event),
        processed(running, after, event, res),
    ensures
        after is None <==> event is DisconnectedSelf,
        after matches Some(after) ==> {
            &&& after.up.len() == running.up.len()
            &&& forall|i: int|
                0 <= i < running.up.len() ==> (#[trigger] after.up[i] <==> running.up[i] || (
                event matches InternEvent::TransportIsUp(idx) && idx.0 == i))
            &&& forall|handle: ConnectionHandle| #[trigger]
                after.connections.contains_key(handle) <==> running.connections.contains_key(handle)
                    && !(event matches InternEvent::Disconnected(ended) && ended == handle)
            &&& forall|handle: ConnectionHandle|
                after.connections.contains_key(handle) ==> #[trigger] after.connections[handle]
                    == running.connections[handle]
            &&& forall|handle: ConnectionHandle| #[trigger]
                after.incoming.contains_key(handle) <==> running.incoming.contains_key(handle) || (
                event matches InternEvent::IncomingConnection(came, _) && came == handle)
            &&& forall|handle: ConnectionHandle|
                running.incoming.contains_key(handle) && !(
                event matches InternEvent::IncomingConnection(came, _) && came == handle)
                    ==> #[trigger] after.incoming[handle] == running.incoming[handle]
            &&& event matches InternEvent::IncomingConnection(came, connection)
                ==> after.incoming[came] == connection
        },
{
}

/// The user is told exactly what was reported. That all transports are up is to be reported when the
/// last of them is reported to be up, and never else.
pub proof fn lemma_told_as_reported<C, E>(
    running: ServerView<C>,
    after: Option<ServerView<C>>,
    event: InternEvent<C, E>,
    res: Processed<E>,
)
    requires
        running.can_process(event),
        processed(running, after, event, res),
    ensures
        match event {
            InternEvent::TransportIsUp(idx) => res.event == Some(ServerEvent::<E>::TransportIsUp(idx)),
            InternEvent::ServerIsUp => res.event == Some(ServerEvent::<E>::ServerIsUp),
            InternEvent::IncomingConnection(handle, _) => res.event matches Some(
                ServerEvent::IncomingConnection(incoming),
            ) && incoming.of() == handle && incoming.is_open(),
            InternEvent::Disconnected(handle) => res.event == Some(
                ServerEvent::<E>::Disconnected(handle),
            ),
            InternEvent::DisconnectedSelf(error) => res.event == Some(
                ServerEvent::DisconnectedSelf(error),
            ),
            InternEvent::Error(handle, error) => res.event == Some(
                ServerEvent::Error(handle, error),
            ),
        },
        res.server_is_up <==> (event matches InternEvent::TransportIsUp(idx) && (forall|i: int|
            0 <= i < running.up.len() && i != idx.0 ==> #[trigger] running.up[i])),
{
    if let InternEvent::TransportIsUp(idx) = event {
        let up = running.up.update(idx.0 as int, true);
        if res.server_is_up {
            assert forall|i: int| 0 <= i < running.up.len() && i != idx.0 implies
                #[trigger] running.up[i] by {
                assert(up[i]);
            }
        }
    }
}

/// Taking in a report takes the first out of the queue, and leaves the others in their order. The only
/// report that is ever added, behind all others, is that all transports are up.
pub proof fn lemma_takes_first_report<C, E>(
    running: ServerView<C>,
    after: Option<ServerView<C>>,
    queue: Seq<InternEvent<C, E>>,
    left: Seq<InternEvent<C, E>>,
    res: Processed<E>,
)
    requires
        queue.len() > 0,
        processed_next(running, after, queue, left, res),
    ensures
        processed(running, after, queue[0], res),
        !res.server_is_up ==> left.len() == queue.len() - 1,
        res.server_is_up ==> left.len() == queue.len() && left.last() is ServerIsUp,
        forall|i: int| 0 <= i < queue.len() - 1 ==> #[trigger] left[i] == queue[i + 1],
{
}

/// Passing over reports takes away those at the front that tell of the end of a connection that was
/// not accepted, as many as there are, and leaves the others in their order. The connections that these
/// tell of wait no more. All others wait as they came, and what was accepted and which transports are
/// up stay the same.
pub proof fn lemma_passes_over_refused<C, E>(
    running: ServerView<C>,
    after: ServerView<C>,
    queue: Seq<InternEvent<C, E>>,
    left: Seq<InternEvent<C, E>>,
)
    requires
        passed(running, after, queue, left),
    ensures
        after.up == running.up,
        after.connections == running.connections,
        left.len() <= queue.len(),
        ({
            let k = queue.len() - left.len();
            &&& forall|i: int| 0 <= i < left.len() ==> #[trigger] left[i] == queue[k + i]
            &&& forall|i: int|
                0 <= i < k ==> (#[trigger] queue[i] matches InternEvent::Disconnected(handle)
                    && !running.connections.contains_key(handle))
            &&& left.len() > 0 ==> !(left[0] matches InternEvent::Disconnected(handle)
                && !running.connections.contains_key(handle))
            &&& forall|handle: ConnectionHandle| #[trigger]
                after.incoming.contains_key(handle) <==> running.incoming.contains_key(handle)
                    && !(exists|i: int|
                    0 <= i < k && (#[trigger] queue[i] matches InternEvent::Disconnected(ended)
                        && ended == handle))
            &&& forall|handle: ConnectionHandle|
                after.incoming.contains_key(handle) ==> #[trigger] after.incoming[handle]
                    == running.incoming[handle]
        }),
{
    let k = choose|k: int| #[trigger] passed_at(running, after, queue, left, k);
    assert(k == queue.len() - left.len());
    lemma_absorbed_keeps_up(running, queue.take(k));
    assert forall|i: int| 0 <= i < k implies (#[trigger] queue[i] matches InternEvent::Disconnected(
        handle,
    ) && !running.connections.contains_key(handle)) by {
        assert(is_refused(running, queue.take(k)[i]));
    }
    lemma_absorbed_incoming(running, queue.take(k));
    assert forall|handle: ConnectionHandle| #[trigger]
        after.incoming.contains_key(handle) <==> running.incoming.contains_key(handle) && !(exists|
        i: int,
    |
        0 <= i < k && (#[trigger] queue[i] matches InternEvent::Disconnected(ended) && ended
            == handle)) by {
        if exists|i: int|
            0 <= i < k && (#[trigger] queue[i] matches InternEvent::Disconnected(ended) && ended
                == handle) {
            let i = choose|i: int|
                0 <= i < k && (#[trigger] queue[i] matches InternEvent::Disconnected(ended)
                    && ended == handle);
            assert(queue.take(k)[i] == queue[i]);
        }
        if exists|i: int|
            0 <= i < k && (#[trigger] queue.take(k)[i] matches InternEvent::Disconnected(ended)
                && ended == handle) {
            let i = choose|i: int|
                0 <= i < k && (#[trigger] queue.take(k)[i] matches InternEvent::Disconnected(ended)
                    && ended == handle);
            assert(queue[i] == queue.take(k)[i]);
        }
    }
}

/// Who waits after `events` were passed over waited before, as it came, and none of them tells of its
/// end.
proof fn lemma_absorbed_incoming<C, E>(running: ServerView<C>, events: Seq<InternEvent<C, E>>)
    ensures
        forall|handle: ConnectionHandle| #[trigger]
            absorbed(running, events).incoming.contains_key(handle)
                <==> running.incoming.contains_key(handle) && !(exists|i: int|
                0 <= i < events.len() && (#[trigger] events[i] matches InternEvent::Disconnected(
                    ended,
                ) && ended == handle)),
        forall|handle: ConnectionHandle|
            absorbed(running, events).incoming.contains_key(handle)
                ==> #[trigger] absorbed(running, events).incoming[handle]
                == running.incoming[handle],
    decreases events.len(),
{
    if events.len() > 0 {
        let before = events.drop_last();
        lemma_absorbed_incoming(running, before);
        let known = absorbed(running, before);
        assert forall|handle: ConnectionHandle|
            absorbed(running, events).incoming.contains_key(handle) implies
            #[trigger] absorbed(running, events).incoming[handle] == running.incoming[handle] by {
            assert(known.incoming.contains_key(handle));
            assert(known.incoming[handle] == running.incoming[handle]);
        }
        assert forall|handle: ConnectionHandle| #[trigger]
            absorbed(running, events).incoming.contains_key(handle)
                <==> running.incoming.contains_key(handle) && !(exists|i: int|
                0 <= i < events.len() && (#[trigger] events[i] matches InternEvent::Disconnected(
                    ended,
                ) && ended == handle)) by {
            assert(events.last() == events[events.len() - 1]);
            assert(known.incoming.contains_key(handle) ==> running.incoming.contains_key(handle));
            assert(absorbed(running, events).incoming.contains_key(handle)
                <==> known.incoming.contains_key(handle) && !(
            events.last() matches InternEvent::Disconnected(ended) && ended == handle));
            if exists|i: int|
                0 <= i < events.len() && (#[trigger] events[i] matches InternEvent::Disconnected(
                    ended,
                ) && ended == handle) {
                let i = choose|i: int|
                    0 <= i < events.len() && (
                    #[trigger] events[i] matches InternEvent::Disconnected(ended) && ended
                        == handle);
                if i < before.len() {
                    assert(before[i] == events[i]);
                }
            }
            if exists|i: int|
                0 <= i < before.len() && (#[trigger] before[i] matches InternEvent::Disconnected(
                    ended,
                ) && ended == handle) {
                let i = choose|i: int|
                    0 <= i < before.len() && (
                    #[trigger] before[i] matches InternEvent::Disconnected(ended) && ended
                        == handle);
                assert(events[i] == before[i]);
            }
        }
    }
}

/// The user is told of the first report that is not the end of a connection that was not accepted. What
/// stands behind it in the queue is left, and where there is no such report nothing is told.
pub proof fn lemma_next_told_is_first<C, E>(
    running: ServerView<C>,
    after: Option<ServerView<C>>,
    queue: Seq<InternEvent<C, E>>,
    left: Seq<InternEvent<C, E>>,
    res: Processed<E>,
    k: int,
)
    requires
        next_told(running, after, queue, left, res),
        0 <= k <= queue.len(),
        forall|i: int|
            0 <= i < k ==> (#[trigger] queue[i] matches InternEvent::Disconnected(handle)
                && !running.connections.contains_key(handle)),
        k < queue.len() ==> !(queue[k] matches InternEvent::Disconnected(handle)
            && !running.connections.contains_key(handle)),
    ensures
        k == queue.len() ==> res.event is None && !res.server_is_up && left.len() == 0 && (
        after matches Some(after) && after.up == running.up && after.connections
            == running.connections && passed(running, after, queue, left)),
        k < queue.len() ==> {
            &&& exists|mid: ServerView<C>|
                {
                    &&& mid.up == running.up
                    &&& mid.connections == running.connections
                    &&& passed(running, mid, queue, queue.skip(k))
                    &&& #[trigger] processed(mid, after, queue[k], res)
                }
            &&& forall|i: int| k < i < queue.len() ==> left[i - k - 1] == #[trigger] queue[i]
            &&& !res.server_is_up ==> left.len() == queue.len() - k - 1
            &&& res.server_is_up ==> left.len() == queue.len() - k && left.last() is ServerIsUp
        },
{
    let (mid, mid_queue) = choose|mid: ServerView<C>, mid_queue: Seq<InternEvent<C, E>>| #[trigger]
        next_told_by(running, after, queue, left, res, mid, mid_queue);
    lemma_passes_over_refused(running, mid, queue, mid_queue);
    let n = queue.len() - mid_queue.len();
    if n < k {
        assert(mid_queue[0] == queue[n]);
    }
    if k < n {
        assert(queue[k] matches InternEvent::Disconnected(handle)
            && !running.connections.contains_key(handle));
    }
    assert(n == k);
    if k < queue.len() {
        assert(mid_queue[0] == queue[k]);
        assert(mid_queue =~= queue.skip(k));
        lemma_takes_first_report(mid, after, mid_queue, left, res);
        assert(processed(mid, after, queue[k], res));
        assert forall|i: int| k < i < queue.len() implies left[i - k - 1] == #[trigger] queue[i] by {
            assert(left[i - k - 1] == mid_queue[i - k]);
            assert(mid_queue[i - k] == queue[k + (i - k)]);
        }
    }
}

/// A connection that the user was told of waits as it came until it is accepted or its end is reported,
/// whatever else was reported, told, accepted or ended meanwhile. Accepting it then gives the connection
/// that it came with.
pub proof fn lemma_waits_until_accepted<C, E>(
    moments: Seq<Moment<C, E>>,
    happenings: Seq<Happening<C, E>>,
    handle: ConnectionHandle,
    connection: Arc<C>,
    j: int,
    k: int,
)
    requires
        runs(moments, happenings),
        0 <= j < k <= happenings.len(),
        happenings[j] is Told,
        moments[j].queue[0] matches InternEvent::IncomingConnection(came, with) && came == handle
            && with == connection,
        forall|m: int|
            j < m < k ==> !(#[trigger] happenings[m] matches Happening::Accepted(accepted)
                && accepted == handle),
        forall|m: int|
            j < m < k && (#[trigger] happenings[m]) is Told ==> !(
            moments[m].queue[0] matches InternEvent::IncomingConnection(came, _) && came == handle),
        forall|m: int, i: int|
            j < m < k && 0 <= i < moments[m].queue.len() ==> !(
            #[trigger] moments[m].queue[i] matches InternEvent::Disconnected(ended) && ended
                == handle),
    ensures
        moments[k].view.incoming.contains_key(handle),
        moments[k].view.incoming[handle] == connection,
        moments[k].view.accepted(handle).connections.contains_key(handle),
        moments[k].view.accepted(handle).connections[handle] == connection,
    decreases k,
{
    let before = moments[k - 1];
    let after = moments[k];
    let happening = happenings[k - 1];
    assert(happening.leads(before, after));
    if j < k - 1 {
        lemma_waits_until_accepted(moments, happenings, handle, connection, j, k - 1);
    }
    match happening {
        Happening::Told(res) => {
            lemma_report_touches_one(before.view, Some(after.view), before.queue[0], res);
        },
        Happening::PassedOver => {
            lemma_passes_over_refused(before.view, after.view, before.queue, after.queue);
            let n = before.queue.len() - after.queue.len();
            if exists|i: int|
                0 <= i < n && (#[trigger] before.queue[i] matches InternEvent::Disconnected(ended)
                    && ended == handle) {
                let i = choose|i: int|
                    0 <= i < n && (#[trigger] before.queue[i] matches InternEvent::Disconnected(
                        ended,
                    ) && ended == handle);
                assert(moments[k - 1].queue[i] matches InternEvent::Disconnected(ended) && ended
                    == handle);
            }
        },
        Happening::Accepted(accepted) => {
            before.view.lemma_accepts_one(accepted);
        },
        _ => {},
    }
}

/// A connection that was accepted is held, as it came, until its end is told or it is ended from here,
/// whatever else was reported, told, accepted or ended meanwhile.
pub proof fn lemma_held_until_ended<C, E>(
    moments: Seq<Moment<C, E>>,
    happenings: Seq<Happening<C, E>>,
    handle: ConnectionHandle,
    j: int,
    k: int,
)
    requires
        runs(moments, happenings),
        0 <= j < k <= happenings.len(),
        happenings[j] matches Happening::Accepted(accepted) && accepted == handle,
        forall|m: int|
            j < m < k ==> !(#[trigger] happenings[m] matches Happening::Accepted(accepted)
                && accepted == handle),
        forall|m: int|
            j < m < k ==> !(#[trigger] happenings[m] matches Happening::Ended(ended) && ended
                == handle),
        forall|m: int|
            j < m < k && (#[trigger] happenings[m]) is Told ==> !(
            moments[m].queue[0] matches InternEvent::Disconnected(ended) && ended == handle),
    ensures
        moments[k].view.connections.contains_key(handle),
        moments[k].view.connections[handle] == moments[j].view.incoming[handle],
    decreases k,
{
    let before = moments[k - 1];
    let after = moments[k];
    let happening = happenings[k - 1];
    assert(happening.leads(before, after));
    if j < k - 1 {
        lemma_held_until_ended(moments, happenings, handle, j, k - 1);
    }
    match happening {
        Happening::Told(res) => {
            lemma_report_touches_one(before.view, Some(after.view), before.queue[0], res);
        },
        Happening::PassedOver => {
            lemma_passes_over_refused(before.view, after.view, before.queue, after.queue);
        },
        Happening::Accepted(accepted) => {
            before.view.lemma_accepts_one(accepted);
        },
        _ => {},
    }
}

} // verus!
