//! Messages as events, which are handed to a server or a client.

use crate::client::{runner, Client};
use crate::handle::{ConnectionHandle, TransportIdx};
use crate::message::NetworkMessage;
use crate::server::runner::RunnerTask;
use crate::server::Server;
use std::sync::Arc;
use vstd::prelude::*;

verus! {

/// A message for a server.
#[derive(Debug)]
pub struct ToServer<T>(pub T);

impl<T: NetworkMessage> ToServer<T> {
    /// Has the client send the message.
    pub fn hand_to<C, F>(self, client: &Client<C, F>) -> (res: Option<runner::RunnerTask<T>>)
        requires
            client.wf(),
            client.chans().sends().contains_key(T::CHANNEL_ID),
        ensures
            res == if client@ is Some {
                Some(
                    runner::RunnerTask::Send {
                        message: self.0,
                        channel_id: crate::channel_id::ChannelId::of(T::CHANNEL_ID),
                        channel_config: T::CHANNEL_CONFIG,
                    },
                )
            } else {
                None
            },
    {
        client.send(self.0)
    }
}

/// A message for one client, for all, or for all but one.
#[derive(Debug)]
pub enum ToClient<T> {
    Single(T, ConnectionHandle),
    Broadcast(T),
    BroadcastExcept(T, ConnectionHandle),
}

impl<T: NetworkMessage> ToClient<T> {
    /// Has the server send the message to whom it is for.
    pub fn hand_to<C, F>(self, server: &Server<C, F>) -> (res: Vec<(TransportIdx, RunnerTask<T>)>)
        requires
            server.wf(),
            server.chans().sends().contains_key(T::CHANNEL_ID),
            self matches ToClient::Single(_, handle) ==> (server@ matches Some(running)
                ==> running.has_transport(handle.transport_idx)),
        ensures
            match (server@, self) {
                (None, _) => res@.len() == 0,
                (Some(_), ToClient::Single(message, handle)) => res@ == seq![
                    crate::server::send_task::<T>(Arc::new(message), handle),
                ],
                (Some(running), ToClient::Broadcast(message)) => crate::server::sends_on::<T>(
                    res@,
                    message,
                    running.connections.dom(),
                ),
                (Some(running), ToClient::BroadcastExcept(message, handle)) =>
                crate::server::sends_on::<T>(
                    res@,
                    message,
                    running.connections.dom().remove(handle),
                ),
            },
    {
        match self {
            ToClient::Single(message, handle) => match server.send_to(message, handle) {
                Some(task) => vec![task],
                None => Vec::new(),
            },
            ToClient::Broadcast(message) => server.broadcast(message),
            ToClient::BroadcastExcept(message, handle) => server.broadcast_except(message, handle),
        }
    }
}

} // verus!
