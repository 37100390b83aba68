//! A transport of a client that is made anew when it is gone.

use crate::transport::{ClientTransportError, TransportProperties};
use vstd::prelude::*;

verus! {

/// Why a transport that can be made anew failed, with `E` for what the transport reports.
#[derive(Debug)]
pub enum ReconnectError<E> {
    /// The transport was gone and has been made anew.
    Reconnected,
    /// The transport failed, or could not be made anew.
    Transport(E),
}

impl<E> ReconnectError<E> {
    /// What is said to people where a transport has been made anew.
    pub fn label(&self) -> (res: Option<&'static str>)
        ensures
            match self {
                ReconnectError::Reconnected => {
                    &&& res matches Some(text)
                    &&& text@ == "reconnected after disconnect"@
                },
                ReconnectError::Transport(_) => res is None,
            },
    {
        match self {
            ReconnectError::Reconnected => Some("reconnected after disconnect"),
            ReconnectError::Transport(_) => None,
        }
    }
}

/// What a transport that is made anew promises, where one that is not promises `inner`: packets are
/// lost on the way.
pub fn properties(inner: TransportProperties) -> (res: TransportProperties)
    ensures
        !res.is_reliable,
        !res.is_ordered,
        res.max_packet_size == inner.max_packet_size,
{
    TransportProperties {
        is_reliable: false,
        is_ordered: false,
        max_packet_size: inner.max_packet_size,
    }
}

/// A transport of a client, and `R` which makes it anew.
pub struct ReconnectOnDisconnectClientTransport<T, R> {
    pub transport: T,
    pub reconnect: R,
}

impl<T, R> ReconnectOnDisconnectClientTransport<T, R> {
    pub fn new(transport: T, reconnect: R) -> (res: Self)
        ensures
            res == (ReconnectOnDisconnectClientTransport { transport, reconnect }),
    {
        ReconnectOnDisconnectClientTransport { transport, reconnect }
    }

    /// Sending or receiving has failed. A transport that is gone is made anew. What it could not
    /// send or receive is lost all the same.
    pub fn failed<E>(&mut self, err: ClientTransportError<E>) -> (res: ClientTransportError<
        ReconnectError<E>,
    >) where R: Fn() -> Result<T, E>
        requires
            err is Disconnected ==> call_requires(old(self).reconnect, ()),
        ensures
            final(self).reconnect == old(self).reconnect,
            match err {
                ClientTransportError::Disconnected => exists|made: Result<T, E>|
                    {
                        &&& #[trigger] call_ensures(old(self).reconnect, (), made)
                        &&& old(self).made_anew(*final(self), made, res)
                    },
                ClientTransportError::TimedOut => {
                    &&& final(self).transport == old(self).transport
                    &&& res == ClientTransportError::<ReconnectError<E>>::TimedOut
                },
                ClientTransportError::Internal(err) => {
                    &&& final(self).transport == old(self).transport
                    &&& res == ClientTransportError::Internal(ReconnectError::Transport(err))
                },
            },
    {
        match err {
            ClientTransportError::Disconnected => {
                let made = (self.reconnect)();
                self.take_over(made)
            },
            ClientTransportError::TimedOut => ClientTransportError::TimedOut,
            ClientTransportError::Internal(err) => ClientTransportError::Internal(
                ReconnectError::Transport(err),
            ),
        }
    }

    /// Takes over a transport that was made anew, if it could be.
    pub fn take_over<E>(&mut self, made: Result<T, E>) -> (res: ClientTransportError<
        ReconnectError<E>,
    >)
        ensures
            final(self).reconnect == old(self).reconnect,
            old(self).made_anew(*final(self), made, res),
    {
        match made {
            Ok(transport) => {
                self.transport = transport;
                ClientTransportError::Internal(ReconnectError::Reconnected)
            },
            Err(err) => ClientTransportError::Internal(ReconnectError::Transport(err)),
        }
    }

    /// What `take_over` does to the transport, and what it returns.
    pub open spec fn made_anew<E>(
        self,
        after: Self,
        made: Result<T, E>,
        res: ClientTransportError<ReconnectError<E>>,
    ) -> bool {
        match made {
            Ok(transport) => {
                &&& after.transport == transport
                &&& res == ClientTransportError::<ReconnectError<E>>::Internal(
                    ReconnectError::Reconnected,
                )
            },
            Err(err) => {
                &&& after.transport == self.transport
                &&& res == ClientTransportError::Internal(ReconnectError::Transport(err))
            },
        }
    }

    /// A transport that was made anew takes the place of the one that is gone, which is reported. Where
    /// it could not be made the old one stays, and why it could not is reported.
    pub proof fn lemma_replaced_if_made<E>(
        self,
        after: Self,
        made: Result<T, E>,
        res: ClientTransportError<ReconnectError<E>>,
    )
        requires
            self.made_anew(after, made, res),
        ensures
            made matches Ok(transport) ==> after.transport == transport && (
            res matches ClientTransportError::Internal(reason) && reason is Reconnected),
            made matches Err(err) ==> after.transport == self.transport && (
            res matches ClientTransportError::Internal(reason) && (
            reason matches ReconnectError::Transport(why) && why == err)),
    {
    }
}

} // verus!
