//! A server and a client that meet, talk and part, over each kind of reliable transport.

use bincode::Options;
use netty::channel::Channels;
use netty::client::runner as client_runner;
use netty::client::{Client, ClientEvent};
use netty::connection::ConnectionState;
use netty::error::{DecodeError, EncodeError};
use netty::handle::{ConnectionHandle, ConnectionIdx, TransportIdx};
use netty::message::{ChannelConfig, NetworkEncode, NetworkMessage};
use netty::new_data::NewDataAvailable;
use netty::protocol::{payload, InternalC2S};
use netty::server::runner as server_runner;
use netty::server::{join_received, Server, ServerEvent};
use netty::transport::channel::{client_receive, ClientFactory, ConnectionId};
use netty::transport::stream::{frame_header, FrameReader, FrameStep};
use netty::transport::channel as queue_transport;
use netty::transport::{stream, TransportProperties};
use std::any::TypeId;
use std::cell::RefCell;
use std::collections::VecDeque;
use std::sync::Arc;

type Decode = fn(&[u8]) -> Result<String, DecodeError<String>>;
type Connection = RefCell<ConnectionState<String, Decode>>;

fn decode(buf: &[u8]) -> Result<String, DecodeError<String>> {
    bincode::DefaultOptions::new()
        .deserialize::<String>(buf)
        .map_err(|err| DecodeError(format!("{err}")))
}

fn encode(data: &String) -> Result<Vec<u8>, EncodeError<String>> {
    bincode::DefaultOptions::new().serialize(data).map_err(|err| EncodeError(format!("{err}")))
}

struct ServerToClient {
    data: String,
}

impl NetworkMessage for ServerToClient {
    const CHANNEL_ID: u8 = 0;
    const CHANNEL_CONFIG: ChannelConfig = ChannelConfig { reliable: true, ordered: true };
}

impl NetworkEncode for ServerToClient {
    type Error = String;

    fn encode(&self) -> Result<Vec<u8>, EncodeError<String>> {
        encode(&self.data)
    }
}

struct ClientToServer {
    data: String,
}

impl NetworkMessage for ClientToServer {
    const CHANNEL_ID: u8 = 0;
    const CHANNEL_CONFIG: ChannelConfig = ChannelConfig { reliable: true, ordered: true };
}

impl NetworkEncode for ClientToServer {
    type Error = String;

    fn encode(&self) -> Result<Vec<u8>, EncodeError<String>> {
        encode(&self.data)
    }
}

/// Carries a packet through a queue.
fn over_queue(packet: &[u8]) -> Vec<u8> {
    let mut buf = vec![0u8; queue_transport::properties().max_packet_size.get()];
    let size = client_receive::<()>(Some(packet.to_vec()), &mut buf).unwrap();
    buf[..size].to_vec()
}

/// Carries a packet over a stream.
fn over_stream(packet: &[u8]) -> Vec<u8> {
    let mut bytes = frame_header(packet);
    bytes.extend_from_slice(packet);
    let mut reader = FrameReader::new(stream::properties().max_packet_size.get());
    loop {
        let rest = bytes.split_off(reader.wanted());
        match reader.take_in(bytes) {
            FrameStep::ReadOn => bytes = rest,
            FrameStep::Packet(packet) => {
                assert!(rest.is_empty());
                return packet;
            }
            FrameStep::TooLarge => panic!("packet too large"),
        }
    }
}

fn run_simple(properties: TransportProperties, carry: fn(&[u8]) -> Vec<u8>) {
    let mut channels = Channels::new();
    channels
        .add_send::<ServerToClient>(TypeId::of::<ServerToClient>(), "ServerToClient")
        .add_recv::<ClientToServer>(TypeId::of::<ClientToServer>(), "ClientToServer", decode as Decode);
    let server_channels = Arc::new(channels);
    let mut server: Server<Connection, Decode> = Server::new(Arc::clone(&server_channels));

    let mut channels = Channels::new();
    channels
        .add_send::<ClientToServer>(TypeId::of::<ClientToServer>(), "ClientToServer")
        .add_recv::<ServerToClient>(TypeId::of::<ServerToClient>(), "ServerToClient", decode as Decode);
    let client_channels = Arc::new(channels);
    let mut client: Client<Connection, Decode> = Client::new(Arc::clone(&client_channels));

    // Start server
    assert!(!server.is_running());
    assert!(server.start::<ServerToClient>(1).is_empty());
    assert!(server.is_running());
    let mut server_data = NewDataAvailable::new();
    let mut server_queue = VecDeque::new();
    let mut server_run: server_runner::Runner<ConnectionId, Connection, Decode> =
        server_runner::Runner::new(TransportIdx(0), properties, server_channels);
    server_queue.push_back(server_run.started::<String>(Ok(())));
    let processed = server.next_event(&mut server_queue);
    assert!(matches!(processed.event, Some(ServerEvent::TransportIsUp(TransportIdx(0)))));
    assert!(processed.server_is_up);
    let processed = server.next_event(&mut server_queue);
    assert!(matches!(processed.event, Some(ServerEvent::ServerIsUp)));
    assert!(server.next_event(&mut server_queue).event.is_none());

    // Connect client
    assert!(client.connect::<ClientToServer>().is_none());
    let mut client_data = NewDataAvailable::new();
    let mut client_queue = VecDeque::new();
    let connection: Arc<Connection> =
        Arc::new(RefCell::new(ConnectionState::new(properties, &client_channels)));
    let mut client_run = client_runner::Runner::new(properties, connection, client_channels);
    assert!(client_run.started::<String>(Ok(())).is_none());
    let id = ClientFactory::new().create_client();
    let asked = client_run.next_connect().unwrap();
    assert_eq!(asked, InternalC2S::Connect);
    let packet = carry(asked.encode().as_slice());
    assert!(matches!(
        server_run.receive::<String>(id, &packet),
        server_runner::Received::Connect
    ));
    let accepted = Arc::new(RefCell::new(server_run.new_connection()));
    for action in server_run.connect::<String>(id, accepted) {
        match action {
            server_runner::RunnerAction::Send(to, message) => {
                assert_eq!(to, id);
                let packet = carry(message.encode().as_slice());
                match client_run.receive::<String>(&packet) {
                    client_runner::Received::Act(actions) => {
                        for action in actions {
                            match action {
                                client_runner::RunnerAction::Emit(event) => {
                                    client_queue.push_back(event)
                                }
                                _ => panic!("unexpected action"),
                            }
                        }
                    }
                    _ => panic!("unexpected packet"),
                }
            }
            server_runner::RunnerAction::Emit(event) => server_queue.push_back(event),
            server_runner::RunnerAction::Cleanup(_) => panic!("unexpected action"),
        }
    }
    assert!(client_run.next_connect().is_none());
    assert!(matches!(client.process_events(&mut client_queue), Some(ClientEvent::Connected)));
    assert!(client.process_events(&mut client_queue).is_none());

    // Accept connection
    let client_handle = match server.next_event(&mut server_queue).event {
        Some(ServerEvent::IncomingConnection(mut incoming)) => {
            let handle = server.accept(&mut incoming).unwrap();
            assert!(incoming.let_go::<Connection, String, ServerToClient>().is_none());
            handle
        }
        _ => panic!("unexpected event"),
    };
    assert_eq!(
        client_handle,
        ConnectionHandle { transport_idx: TransportIdx(0), connection_idx: ConnectionIdx(0) }
    );
    assert!(server.next_event(&mut server_queue).event.is_none());

    // Send messages
    let (transport_idx, task) = server
        .send_to(ServerToClient { data: "Hello Client".to_string() }, client_handle)
        .unwrap();
    assert_eq!(transport_idx, TransportIdx(0));
    match server_run.start_task(task) {
        server_runner::TaskStep::Transmit { id: to, packet, connection_idx, channel_config } => {
            assert_eq!(to, id);
            let packet = carry(&packet);
            match client_run.receive::<String>(&packet) {
                client_runner::Received::Deliver { connection, channel_id } => {
                    let outcome = connection.borrow_mut().decode_recv(
                        &mut client_data,
                        channel_id,
                        payload(&packet),
                    );
                    assert!(client_run.decoded(channel_id, outcome).is_empty());
                }
                _ => panic!("unexpected packet"),
            }
            assert!(server_run.sent::<String>(connection_idx, channel_config, Ok(())).is_empty());
        }
        _ => panic!("unexpected step"),
    }
    let task = client.send(ClientToServer { data: "Hello Server".to_string() }).unwrap();
    match client_run.start_task(task) {
        client_runner::TaskStep::Transmit { packet, channel_config } => {
            let packet = carry(&packet);
            match server_run.receive::<String>(id, &packet) {
                server_runner::Received::Deliver { connection_idx, connection, channel_id } => {
                    let outcome = connection.borrow_mut().decode_recv(
                        &mut server_data,
                        channel_id,
                        payload(&packet),
                    );
                    assert!(server_run.decoded(id, connection_idx, channel_id, outcome).is_empty());
                }
                _ => panic!("unexpected packet"),
            }
            assert!(client_run.sent::<String>(channel_config, Ok(())).is_empty());
        }
        _ => panic!("unexpected step"),
    }

    // Receive messages
    assert!(server.wait_timeout(&mut server_data));
    assert!(!server.wait_timeout(&mut server_data));
    let (from, connection) = server.recv().pop().unwrap();
    assert!(connection.borrow().get_receiver::<ClientToServer>(TypeId::of::<ClientToServer>()).is_ok());
    let batch = connection.borrow_mut().receive_all(0, from);
    let mut messages = join_received(vec![batch]).into_iter();
    let (message, message_handle) = messages.next().unwrap();
    assert!(message == "Hello Server");
    assert!(message_handle == client_handle);
    assert!(messages.next().is_none());
    assert!(server.recv_from(client_handle).is_some());

    assert!(client.wait_timeout(&mut client_data));
    let message =
        client.recv().unwrap().borrow_mut().receive_as::<ServerToClient>(TypeId::of::<ServerToClient>());
    assert_eq!(message.unwrap(), Some("Hello Client".to_string()));

    // Disconnect
    let task = client.disconnect::<ClientToServer>().unwrap();
    assert!(!client.is_running());
    match client_run.start_task(task) {
        client_runner::TaskStep::Act(actions) => {
            for action in actions {
                if let client_runner::RunnerAction::Send(message) = action {
                    let packet = carry(message.encode().as_slice());
                    match server_run.receive::<String>(id, &packet) {
                        server_runner::Received::Act(actions) => {
                            for action in actions {
                                if let server_runner::RunnerAction::Emit(event) = action {
                                    server_queue.push_back(event);
                                }
                            }
                        }
                        _ => panic!("unexpected packet"),
                    }
                }
            }
        }
        _ => panic!("unexpected step"),
    }
    assert!(!client_run.is_alive);
    assert!(
        matches!(server.next_event(&mut server_queue).event, Some(ServerEvent::Disconnected(handle)) if handle == client_handle)
    );
}

#[test]
fn channel() {
    run_simple(queue_transport::properties(), over_queue);
}

#[test]
fn tcp() {
    run_simple(stream::properties(), over_stream);
}
