//! Packets as UDP datagrams.

use crate::transport::remotes::ReadFailure;
use crate::transport::{ClientTransportError, MaxPacketSize, TransportProperties};
use vstd::prelude::*;

verus! {

/// What a transport over UDP promises.
pub fn properties() -> (res: TransportProperties)
    ensures
        !res.is_reliable,
        !res.is_ordered,
        res.max_packet_size.size() == 256,
{
    TransportProperties {
        is_reliable: false,
        is_ordered: false,
        max_packet_size: MaxPacketSize::new(256),
    }
}

/// Why a datagram was not sent or received, with `E` for what the socket reports.
#[derive(Debug)]
pub enum DatagramError<E> {
    /// A part of the packet was sent.
    Partial,
    /// The socket failed.
    Io(E),
}

impl<E> DatagramError<E> {
    /// What is said to people where a part of a packet was sent.
    pub fn label(&self) -> (res: Option<&'static str>)
        ensures
            match self {
                DatagramError::Partial => {
                    &&& res matches Some(text)
                    &&& text@ == "failed to send entire buffer"@
                },
                DatagramError::Io(_) => res is None,
            },
    {
        match self {
            DatagramError::Partial => Some("failed to send entire buffer"),
            DatagramError::Io(_) => None,
        }
    }
}

/// What the socket reports of a failure: nothing could be done in time, or the transport failed.
pub open spec fn failed<E>(failure: ReadFailure, err: E) -> ClientTransportError<DatagramError<E>> {
    if failure.passes() {
        ClientTransportError::TimedOut
    } else {
        ClientTransportError::Internal(DatagramError::Io(err))
    }
}

fn fail<E>(failure: ReadFailure, err: E) -> (res: ClientTransportError<DatagramError<E>>)
    ensures
        res == failed(failure, err),
{
    if failure.is_passing() {
        ClientTransportError::TimedOut
    } else {
        ClientTransportError::Internal(DatagramError::Io(err))
    }
}

/// What comes of sending a packet of `size` bytes, when the socket reports how many it sent.
pub fn sent<E>(size: usize, result: Result<usize, (ReadFailure, E)>) -> (res: Result<
    (),
    ClientTransportError<DatagramError<E>>,
>)
    ensures
        res == match result {
            Ok(sent) => if sent == size {
                Ok::<(), ClientTransportError<DatagramError<E>>>(())
            } else {
                Err(ClientTransportError::Internal(DatagramError::Partial))
            },
            Err((kind, err)) => Err(failed(kind, err)),
        },
{
    match result {
        Ok(sent) => if sent == size {
            Ok(())
        } else {
            Err(ClientTransportError::Internal(DatagramError::Partial))
        },
        Err((kind, err)) => Err(fail(kind, err)),
    }
}

/// What comes of receiving, when the socket reports `value` of the packet that it received.
pub fn received<T, E>(result: Result<T, (ReadFailure, E)>) -> (res: Result<
    T,
    ClientTransportError<DatagramError<E>>,
>)
    ensures
        res == match result {
            Ok(value) => Ok::<T, ClientTransportError<DatagramError<E>>>(value),
            Err((kind, err)) => Err(failed(kind, err)),
        },
{
    match result {
        Ok(value) => Ok(value),
        Err((kind, err)) => Err(fail(kind, err)),
    }
}

/// A socket that had nothing or whose time was up has not failed. Every other failure of a socket is
/// one of the transport, with what the socket reports as the reason.
pub proof fn lemma_failed_for_a_reason<E>(err: E)
    ensures
        failed(ReadFailure::WouldBlock, err) is TimedOut,
        failed(ReadFailure::TimedOut, err) is TimedOut,
        failed(ReadFailure::Other, err) == ClientTransportError::Internal(DatagramError::Io(err)),
{
}

} // verus!
