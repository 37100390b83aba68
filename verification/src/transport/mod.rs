//! What the library knows of the transports that carry its packets.

pub mod channel;
pub mod reconnect;
pub mod remotes;
pub mod stream;
pub mod udp;

use std::ops::Deref;
use vstd::prelude::*;

verus! {

/// The smallest limit that a transport can have on its packets.
pub const SMALLEST_MAX_PACKET_SIZE: usize = 256;

/// The largest limit that a transport can have on its packets, one mebibyte.
pub const LARGEST_MAX_PACKET_SIZE: usize = 1048576;

/// The size in bytes up to which a transport carries a packet.
#[derive(Debug, Clone, Copy, PartialEq, Eq, Hash, Structural)]
pub struct MaxPacketSize(usize);

impl MaxPacketSize {
    #[verifier::type_invariant]
    closed spec fn in_range(self) -> bool {
        SMALLEST_MAX_PACKET_SIZE <= self.0 <= LARGEST_MAX_PACKET_SIZE
    }

    /// The size in bytes.
    pub closed spec fn size(self) -> usize {
        self.0
    }

    pub fn new(size: usize) -> (res: Self)
        requires
            SMALLEST_MAX_PACKET_SIZE <= size <= LARGEST_MAX_PACKET_SIZE,
        ensures
            res.size() == size,
    {
        MaxPacketSize(size)
    }

    /// The largest size, one mebibyte.
    pub fn max() -> (res: Self)
        ensures
            res.size() == LARGEST_MAX_PACKET_SIZE,
    {
        MaxPacketSize(LARGEST_MAX_PACKET_SIZE)
    }

    /// The size in bytes.
    pub fn get(&self) -> (res: usize)
        ensures
            res == self.size(),
            SMALLEST_MAX_PACKET_SIZE <= res <= LARGEST_MAX_PACKET_SIZE,
    {
        proof {
            use_type_invariant(self);
        }
        self.0
    }
}

impl Deref for MaxPacketSize {
    type Target = usize;

    fn deref(&self) -> (res: &usize)
        ensures
            *res == self.size(),
    {
        &self.0
    }
}

/// Why a transport could not send or receive, with `C` for the remote that it speaks of and `E` for
/// the reason of an internal error.
#[derive(Debug)]
pub enum TransportError<C, E> {
    /// The transport is gone for good.
    Disconnected,
    /// The remote is gone for good.
    RemoteDisconnected(C),
    /// The time was up.
    TimedOut,
    /// The transport failed.
    Internal(E),
}

/// Why the transport of a client could not send or receive. The one remote that it has is the server,
/// which is gone when the transport is.
#[derive(Debug)]
pub enum ClientTransportError<E> {
    /// The transport is gone for good.
    Disconnected,
    /// The time was up.
    TimedOut,
    /// The transport failed.
    Internal(E),
}

impl<C, E> From<ClientTransportError<E>> for TransportError<C, E> {
    fn from(err: ClientTransportError<E>) -> (res: Self) {
        match err {
            ClientTransportError::Disconnected => TransportError::Disconnected,
            ClientTransportError::TimedOut => TransportError::TimedOut,
            ClientTransportError::Internal(err) => TransportError::Internal(err),
        }
    }
}

impl<C, E> vstd::std_specs::convert::FromSpecImpl<ClientTransportError<E>>
    for TransportError<C, E> {
    open spec fn obeys_from_spec() -> bool {
        true
    }

    open spec fn from_spec(err: ClientTransportError<E>) -> Self {
        match err {
            ClientTransportError::Disconnected => TransportError::Disconnected,
            ClientTransportError::TimedOut => TransportError::TimedOut,
            ClientTransportError::Internal(err) => TransportError::Internal(err),
        }
    }
}

/// What the transport of a client makes of how sending or receiving went, where a failure cannot be
/// recovered from: the transport is gone.
pub fn client_outcome<T, R, E>(result: Result<T, R>) -> (res: Result<T, ClientTransportError<E>>)
    ensures
        res == match result {
            Ok(value) => Ok::<T, ClientTransportError<E>>(value),
            Err(_) => Err(ClientTransportError::Disconnected),
        },
{
    match result {
        Ok(value) => Ok(value),
        Err(_) => Err(ClientTransportError::Disconnected),
    }
}

/// What a transport promises.
#[derive(Debug, Clone, Copy)]
pub struct TransportProperties {
    pub is_reliable: bool,
    pub is_ordered: bool,
    pub max_packet_size: MaxPacketSize,
}

/// A failure of the transport of a client is the same failure of a transport, and never that a remote
/// is gone.
pub proof fn lemma_same_failure<C, E>(err: ClientTransportError<E>)
    ensures
        ({
            let same =
                <TransportError<C, E> as vstd::std_specs::convert::FromSpec<
                ClientTransportError<E>,
            >>::from_spec(err);
            match err {
                ClientTransportError::Disconnected => same is Disconnected,
                ClientTransportError::TimedOut => same is TimedOut,
                ClientTransportError::Internal(reason) => same == TransportError::<C, E>::Internal(
                    reason,
                ),
            }
        }),
{
}

} // verus!
