//! The client: its connection, and what it has its transport do.
//!
//! The transport and the wait for what it reports are driven from outside. What it reports is
//! handed in by `process_event`. The tasks that come back go to the transport.

pub mod runner;

use crate::channel::Channels;
use crate::channel_id::ChannelId;
use crate::client::runner::RunnerTask;
use crate::error::NetworkError;
use crate::message::NetworkMessage;
use crate::new_data::NewDataAvailable;
use std::collections::VecDeque;
use std::sync::Arc;
use vstd::prelude::*;

verus! {

/// What the transport of a client reports to it, with `C` for a connection and `E` for the reason of
/// an error.
#[derive(Debug)]
pub enum InternEvent<C, E> {
    Connected(Arc<C>),
    Disconnected(Option<NetworkError<E>>),
    Error(NetworkError<E>),
}

/// What a client reports to its user.
#[derive(Debug)]
pub enum ClientEvent<E> {
    Connected,
    Disconnected(Option<NetworkError<E>>),
    Error(NetworkError<E>),
}

enum ClientState<C> {
    Disconnected,
    Running { connection: Option<Arc<C>> },
}

/// A client, with `C` for its connection and `F` for the decoders of its channels.
pub struct Client<C, F> {
    channels: Arc<Channels<F>>,
    state: ClientState<C>,
}

impl<C, F> View for Client<C, F> {
    type V = Option<Option<Arc<C>>>;

    /// The connection, which there is once the server has let the client in, if the client runs.
    closed spec fn view(&self) -> Option<Option<Arc<C>>> {
        match self.state {
            ClientState::Disconnected => None,
            ClientState::Running { connection } => Some(connection),
        }
    }
}

impl<C, F> Client<C, F> {
    /// The channels of the client.
    pub closed spec fn chans(&self) -> Channels<F> {
        *self.channels
    }

    pub open spec fn wf(&self) -> bool {
        self.chans().wf()
    }

    /// A client that does not run yet.
    pub fn new(channels: Arc<Channels<F>>) -> (res: Self)
        requires
            channels.wf(),
        ensures
            res.wf(),
            res.chans() == *channels,
            res@ is None,
    {
        Client { channels, state: ClientState::Disconnected }
    }

    /// Starts the client anew. The task ends the connection that it had.
    pub fn connect<M>(&mut self) -> (res: Option<RunnerTask<M>>)
        ensures
            final(self).chans() == old(self).chans(),
            final(self)@ == Some(None::<Arc<C>>),
            res == if old(self)@ is Some {
                Some(RunnerTask::<M>::Disconnect { notify_server: true })
            } else {
                None
            },
    {
        let task = self.disconnect();
        self.state = ClientState::Running { connection: None };
        task
    }

    /// Stops the client. The task ends the connection that it had.
    pub fn disconnect<M>(&mut self) -> (res: Option<RunnerTask<M>>)
        ensures
            final(self).chans() == old(self).chans(),
            final(self)@ is None,
            res == if old(self)@ is Some {
                Some(RunnerTask::<M>::Disconnect { notify_server: true })
            } else {
                None
            },
    {
        let task = match &self.state {
            ClientState::Disconnected => None,
            ClientState::Running { .. } => Some(RunnerTask::Disconnect { notify_server: true }),
        };
        self.state = ClientState::Disconnected;
        task
    }

    /// Takes in the next report of the transport. The reports wait in `queue`.
    pub fn process_events<E>(&mut self, queue: &mut VecDeque<InternEvent<C, E>>) -> (res: Option<
        ClientEvent<E>,
    >)
        ensures
            final(self).chans() == old(self).chans(),
            if old(self)@ is Some && old(queue)@.len() > 0 {
                &&& final(queue)@ == old(queue)@.drop_first()
                &&& processed(old(self)@, final(self)@, old(queue)@.first(), res)
            } else {
                &&& final(queue)@ == old(queue)@
                &&& final(self)@ == old(self)@
                &&& res is None
            },
    {
        if !self.is_running() {
            return None;
        }
        match queue.pop_front() {
            Some(event) => self.process_event(event),
            None => None,
        }
    }

    /// Takes in what the transport reports. What the user is told comes back.
    pub fn process_event<E>(&mut self, event: InternEvent<C, E>) -> (res: Option<ClientEvent<E>>)
        ensures
            final(self).chans() == old(self).chans(),
            processed(old(self)@, final(self)@, event, res),
    {
        if !self.is_running() {
            return None;
        }
        match event {
            InternEvent::Connected(connection) => {
                self.state = ClientState::Running { connection: Some(connection) };
                Some(ClientEvent::Connected)
            },
            InternEvent::Disconnected(error) => {
                self.state = ClientState::Disconnected;
                Some(ClientEvent::Disconnected(error))
            },
            InternEvent::Error(error) => Some(ClientEvent::Error(error)),
        }
    }

    /// Sends a message. The task tells the transport.
    pub fn send<T: NetworkMessage>(&self, message: T) -> (res: Option<RunnerTask<T>>)
        requires
            self.wf(),
            self.chans().sends().contains_key(T::CHANNEL_ID),
        ensures
            res == if self@ is Some {
                Some(
                    RunnerTask::Send {
                        message,
                        channel_id: ChannelId::of(T::CHANNEL_ID),
                        channel_config: T::CHANNEL_CONFIG,
                    },
                )
            } else {
                None
            },
    {
        let channel_id = self.channels.send_channel_id::<T>();
        match &self.state {
            ClientState::Disconnected => None,
            ClientState::Running { .. } => Some(
                RunnerTask::Send { message, channel_id, channel_config: T::CHANNEL_CONFIG },
            ),
        }
    }

    /// The connection, to receive what has arrived on it, once the server has let the client in.
    pub fn recv(&self) -> (res: Option<&Arc<C>>)
        ensures
            match self@ {
                Some(Some(connection)) => res == Some(&connection),
                _ => res is None,
            },
    {
        match &self.state {
            ClientState::Disconnected => None,
            ClientState::Running { connection } => match connection {
                Some(connection) => Some(connection),
                None => None,
            },
        }
    }

    /// The client runs.
    pub fn is_running(&self) -> (res: bool)
        ensures
            res == self@ is Some,
    {
        match &self.state {
            ClientState::Disconnected => false,
            ClientState::Running { .. } => true,
        }
    }

    /// What a wait for something to arrive ends with: whether something has. A client that does not
    /// run does not wait.
    pub fn wait_timeout(&self, new_data: &mut NewDataAvailable) -> (res: bool)
        ensures
            res == (self@ is Some && old(new_data).pending()),
            self@ is Some ==> !final(new_data).pending(),
            self@ is None ==> *final(new_data) == *old(new_data),
    {
        match &self.state {
            ClientState::Disconnected => false,
            ClientState::Running { .. } => new_data.wait_timeout(),
        }
    }
}

/// What the report `event` makes of a client, and what its user is told.
pub open spec fn processed<C, E>(
    before: Option<Option<Arc<C>>>,
    after: Option<Option<Arc<C>>>,
    event: InternEvent<C, E>,
    res: Option<ClientEvent<E>>,
) -> bool {
    match (before, event) {
        (None, _) => after is None && res is None,
        (Some(_), InternEvent::Connected(connection)) => {
            &&& after == Some(Some(connection))
            &&& res == Some(ClientEvent::<E>::Connected)
        },
        (Some(_), InternEvent::Disconnected(error)) => {
            &&& after is None
            &&& res == Some(ClientEvent::Disconnected(error))
        },
        (Some(_), InternEvent::Error(error)) => {
            &&& after == before
            &&& res == Some(ClientEvent::Error(error))
        },
    }
}

/// A client whose transport has ended hears nothing more from it.
pub proof fn lemma_silent_after_end<C, E>(
    before: Option<Option<Arc<C>>>,
    after: Option<Option<Arc<C>>>,
    later: Option<Option<Arc<C>>>,
    error: Option<NetworkError<E>>,
    event: InternEvent<C, E>,
    res: Option<ClientEvent<E>>,
    res_later: Option<ClientEvent<E>>,
)
    requires
        processed(before, after, InternEvent::Disconnected(error), res),
        processed(after, later, event, res_later),
    ensures
        after is None,
        later is None,
        res_later is None,
{
}

/// The user of a client that runs is told exactly what was reported. What the client was let in with is
/// held, the end of the transport ends the client, and an error changes nothing. A client that does not
/// run tells nothing and stays so.
pub proof fn lemma_told_as_reported<C, E>(
    before: Option<Option<Arc<C>>>,
    after: Option<Option<Arc<C>>>,
    event: InternEvent<C, E>,
    res: Option<ClientEvent<E>>,
)
    requires
        processed(before, after, event, res),
    ensures
        before is None ==> after is None && res is None,
        before is Some ==> match event {
            InternEvent::Connected(connection) => {
                &&& res == Some(ClientEvent::<E>::Connected)
                &&& after is Some
                &&& after->0 == Some(connection)
            },
            InternEvent::Disconnected(error) => {
                &&& res == Some(ClientEvent::Disconnected(error))
                &&& after is None
            },
            InternEvent::Error(error) => {
                &&& res == Some(ClientEvent::Error(error))
                &&& after == before
            },
        },
{
}

/// What a client was let in with is its connection until its transport ends, whatever errors are
/// reported in between, and the user is told of each of these.
pub proof fn lemma_connection_held<C, E>(
    states: Seq<Option<Option<Arc<C>>>>,
    events: Seq<InternEvent<C, E>>,
    told: Seq<Option<ClientEvent<E>>>,
    connection: Arc<C>,
    k: int,
)
    requires
        states.len() == events.len() + 1,
        told.len() == events.len(),
        forall|i: int|
            0 <= i < events.len() ==> processed(
                states[i],
                states[i + 1],
                #[trigger] events[i],
                told[i],
            ),
        states[0] is Some,
        0 < k <= events.len(),
        events[0] matches InternEvent::Connected(let_in) && let_in == connection,
        forall|i: int| 0 < i < k ==> (#[trigger] events[i]) is Error,
    ensures
        states[k] is Some,
        states[k]->0 == Some(connection),
        told[k - 1] is Some,
    decreases k,
{
    if k > 1 {
        lemma_connection_held(states, events, told, connection, k - 1);
    }
    lemma_told_as_reported(states[k - 1], states[k], events[k - 1], told[k - 1]);
}

} // verus!
