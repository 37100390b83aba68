//! Message passing between a server and its clients over interchangeable transports.

pub mod channel;
pub mod channel_id;
pub mod client;
pub mod connection;
pub mod double_key_map;
pub mod error;
pub mod events;
pub mod handle;
pub mod handle_map;
pub mod identity;
pub mod message;
pub mod new_data;
pub mod protocol;
pub mod server;
pub mod session;
pub mod transport;
pub mod web;
