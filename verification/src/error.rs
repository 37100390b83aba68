//! What can go wrong, with `E` for what a transport or a message reports as the reason.

use vstd::prelude::*;

verus! {

/// A message could not be turned into bytes.
#[derive(Debug)]
pub struct EncodeError<E>(pub E);

/// Bytes could not be turned into a message.
#[derive(Debug)]
pub struct DecodeError<E>(pub E);

/// An error that a server or a client reports.
#[derive(Debug)]
pub enum NetworkError<E> {
    Encode(EncodeError<E>),
    Decode(DecodeError<E>),
    NotConnected,
    TransportConnect(E),
    TransportSend(E),
    TransportReceive(E),
    Io(E),
    Other,
}

impl<E> NetworkError<E> {
    /// How the error is named in messages to people.
    pub fn label(&self) -> (res: &'static str)
        ensures
            res@ == match self {
                NetworkError::Encode(_) => "encode"@,
                NetworkError::Decode(_) => "decode"@,
                NetworkError::NotConnected => "not connected"@,
                NetworkError::TransportConnect(_) => "transport connect"@,
                NetworkError::TransportSend(_) => "transport send"@,
                NetworkError::TransportReceive(_) => "transport receive"@,
                NetworkError::Io(_) => "io"@,
                NetworkError::Other => "other"@,
            },
    {
        match self {
            NetworkError::Encode(_) => "encode",
            NetworkError::Decode(_) => "decode",
            NetworkError::NotConnected => "not connected",
            NetworkError::TransportConnect(_) => "transport connect",
            NetworkError::TransportSend(_) => "transport send",
            NetworkError::TransportReceive(_) => "transport receive",
            NetworkError::Io(_) => "io",
            NetworkError::Other => "other",
        }
    }
}

impl<E> From<EncodeError<E>> for NetworkError<E> {
    fn from(err: EncodeError<E>) -> (res: Self) {
        NetworkError::Encode(err)
    }
}

impl<E> vstd::std_specs::convert::FromSpecImpl<EncodeError<E>> for NetworkError<E> {
    open spec fn obeys_from_spec() -> bool {
        true
    }

    open spec fn from_spec(err: EncodeError<E>) -> Self {
        NetworkError::Encode(err)
    }
}

impl<E> From<DecodeError<E>> for NetworkError<E> {
    fn from(err: DecodeError<E>) -> (res: Self) {
        NetworkError::Decode(err)
    }
}

impl<E> vstd::std_specs::convert::FromSpecImpl<DecodeError<E>> for NetworkError<E> {
    open spec fn obeys_from_spec() -> bool {
        true
    }

    open spec fn from_spec(err: DecodeError<E>) -> Self {
        NetworkError::Decode(err)
    }
}

/// An error of encoding or decoding is reported as such, with its reason.
pub proof fn lemma_reported_as_it_is<E>(encode: EncodeError<E>, decode: DecodeError<E>)
    ensures
        <NetworkError<E> as vstd::std_specs::convert::FromSpec<EncodeError<E>>>::from_spec(encode)
            == NetworkError::Encode(encode),
        <NetworkError<E> as vstd::std_specs::convert::FromSpec<DecodeError<E>>>::from_spec(decode)
            == NetworkError::Decode(decode),
{
}

} // verus!
