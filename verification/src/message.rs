//! What a type has to offer to be sent as a message.

use crate::error::EncodeError;
use vstd::prelude::*;

verus! {

/// What a channel promises for its messages.
#[derive(Debug, Clone, Copy)]
pub struct ChannelConfig {
    /// A message that cannot be delivered ends the connection.
    pub reliable: bool,
    /// Messages arrive in the order in which they were sent.
    pub ordered: bool,
}

/// A message, and the channel that it travels on.
pub trait NetworkMessage {
    /// The number of the channel, at most `MAX_CHANNEL_ID`.
    const CHANNEL_ID: u8;

    const CHANNEL_CONFIG: ChannelConfig;
}

/// A message that can be turned into bytes.
pub trait NetworkEncode {
    /// Why a message could not be turned into bytes.
    type Error;

    fn encode(&self) -> Result<Vec<u8>, EncodeError<Self::Error>>;
}

} // verus!
