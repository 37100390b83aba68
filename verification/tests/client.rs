//! A client and its transport.

use netty::channel::Channels;
use netty::channel_id::ChannelId;
use netty::client::runner::{
    Received, Runner, RunnerAction, RunnerTask, TaskStep, CONNECT_INTERVAL_MILLIS,
};
use netty::client::{Client, ClientEvent, InternEvent};
use netty::error::{DecodeError, EncodeError, NetworkError};
use netty::events::ToServer;
use netty::handle::ConnectionIdx;
use netty::identity::ConnectionUuid;
use netty::message::{ChannelConfig, NetworkEncode, NetworkMessage};
use netty::protocol::{InternalC2S, InternalS2C};
use netty::transport::{stream, ClientTransportError};
use std::any::TypeId;
use std::collections::VecDeque;
use std::sync::Arc;

type Decode = fn(&[u8]) -> Result<u8, DecodeError<&'static str>>;
type Action = RunnerAction<&'static str, &'static str>;

const RELIABLE: ChannelConfig = ChannelConfig { reliable: true, ordered: true };
const UNRELIABLE: ChannelConfig = ChannelConfig { reliable: false, ordered: false };

#[derive(Debug)]
struct Note(Result<Vec<u8>, &'static str>);

impl NetworkMessage for Note {
    const CHANNEL_ID: u8 = 5;
    const CHANNEL_CONFIG: ChannelConfig = RELIABLE;
}

impl NetworkEncode for Note {
    type Error = &'static str;

    fn encode(&self) -> Result<Vec<u8>, EncodeError<&'static str>> {
        self.0.clone().map_err(EncodeError)
    }
}

fn decode(buf: &[u8]) -> Result<u8, DecodeError<&'static str>> {
    buf.first().copied().ok_or(DecodeError("empty"))
}

fn channels() -> Arc<Channels<Decode>> {
    let mut channels: Channels<Decode> = Channels::new();
    channels.add_send::<Note>(TypeId::of::<Note>(), "Note").add_recv::<Note>(TypeId::of::<Note>(), "Note", decode);
    Arc::new(channels)
}

fn runner() -> Runner<&'static str, Decode> {
    Runner::new(stream::properties(), Arc::new("server"), channels())
}

fn connected() -> Runner<&'static str, Decode> {
    let mut runner = runner();
    runner.is_connected = true;
    runner
}

fn acts(received: Received<&'static str, &'static str>) -> Vec<Action> {
    match received {
        Received::Act(actions) => actions,
        _ => panic!("expected actions"),
    }
}

fn step(step: TaskStep<&'static str, &'static str>) -> Vec<Action> {
    match step {
        TaskStep::Act(actions) => actions,
        _ => panic!("expected actions"),
    }
}

fn send(message: Note) -> RunnerTask<Note> {
    RunnerTask::Send { message, channel_id: ChannelId::new(5), channel_config: RELIABLE }
}

#[test]
fn a_client_follows_its_transport() {
    let mut client: Client<&'static str, Decode> = Client::new(channels());
    let mut queue = VecDeque::new();
    queue.push_back(InternEvent::Connected(Arc::new("conn")));
    assert!(client.process_events::<&str>(&mut queue).is_none());
    assert_eq!(queue.len(), 1);
    assert!(client.send(Note(Ok(vec![1]))).is_none());
    assert!(client.disconnect::<Note>().is_none());

    assert!(client.connect::<Note>().is_none());
    assert!(client.is_running());
    assert!(client.recv().is_none());
    queue.push_back(InternEvent::Error(NetworkError::TransportReceive("cable")));
    queue.push_back(InternEvent::Disconnected(Some(NetworkError::Other)));
    queue.push_back(InternEvent::Error(NetworkError::Other));
    assert!(matches!(client.process_events(&mut queue), Some(ClientEvent::Connected)));
    assert_eq!(**client.recv().unwrap(), "conn");
    assert!(matches!(
        client.process_events(&mut queue),
        Some(ClientEvent::Error(NetworkError::TransportReceive("cable")))
    ));
    assert!(matches!(
        client.process_events(&mut queue),
        Some(ClientEvent::Disconnected(Some(NetworkError::Other)))
    ));
    assert!(!client.is_running());
    assert!(client.recv().is_none());
    assert!(client.process_events(&mut queue).is_none());
    assert_eq!(queue.len(), 1);
}

#[test]
fn a_client_tells_the_server_that_it_leaves() {
    let mut client: Client<&'static str, Decode> = Client::new(channels());
    client.connect::<Note>();
    assert!(matches!(
        client.connect::<Note>(),
        Some(RunnerTask::Disconnect { notify_server: true })
    ));
    assert!(client.is_running());
    assert!(matches!(
        client.disconnect::<Note>(),
        Some(RunnerTask::Disconnect { notify_server: true })
    ));
    assert!(!client.is_running());
}

#[test]
fn messages_of_a_client_go_to_its_transport() {
    let mut client: Client<&'static str, Decode> = Client::new(channels());
    client.connect::<Note>();
    for task in [client.send(Note(Ok(vec![1]))), ToServer(Note(Ok(vec![1]))).hand_to(&client)] {
        match task {
            Some(RunnerTask::Send { message, channel_id, channel_config }) => {
                assert_eq!(message.0, Ok(vec![1]));
                assert_eq!(channel_id, ChannelId::new(5));
                assert!(channel_config.reliable && channel_config.ordered);
            }
            _ => panic!("expected a message"),
        }
    }
}

#[test]
fn a_transport_asks_until_it_is_let_in() {
    assert_eq!(CONNECT_INTERVAL_MILLIS, 500);
    let mut runner = runner();
    assert!(runner.started::<&str>(Ok(())).is_none());
    assert_eq!(runner.next_connect(), Some(InternalC2S::Connect));
    assert!(acts(runner.receive(&[5, 1])).is_empty());
    assert!(acts(runner.receive(&[])).is_empty());
    assert!(acts(runner.receive(InternalS2C::RequestId.encode().as_slice())).is_empty());
    assert_eq!(runner.next_connect(), Some(InternalC2S::Connect));
    let welcome =
        InternalS2C::Connect(ConnectionIdx(3), ConnectionUuid::from_bytes(&[7; 16])).encode();
    assert!(matches!(
        &acts(runner.receive(welcome.as_slice()))[..],
        [RunnerAction::Emit(InternEvent::Connected(connection))] if **connection == "server"
    ));
    assert_eq!(runner.next_connect(), None);
    assert!(acts(runner.receive(welcome.as_slice())).is_empty());
    assert!(matches!(
        runner.receive::<&str>(&[5, 1]),
        Received::Deliver { connection, channel_id }
            if *connection == "server" && channel_id == ChannelId::new(5)
    ));
}

#[test]
fn a_transport_that_cannot_start_is_gone() {
    let mut runner = runner();
    assert!(matches!(
        runner.started(Err(NetworkError::TransportConnect("refused"))),
        Some(InternEvent::Disconnected(Some(NetworkError::TransportConnect("refused"))))
    ));
    assert!(!runner.is_alive);
    assert_eq!(runner.next_connect(), None);
}

#[test]
fn a_dismissed_client_stops() {
    for mut runner in [runner(), connected()] {
        assert!(matches!(
            &acts(runner.receive(InternalS2C::Disconnect.encode().as_slice()))[..],
            [RunnerAction::Emit(InternEvent::Disconnected(None))]
        ));
        assert!(!runner.is_alive);
    }
}

#[test]
fn failures_of_a_client_to_receive_are_reported() {
    let mut runner = connected();
    let late: Vec<Action> = runner.receive_failed(ClientTransportError::TimedOut);
    assert!(late.is_empty());
    assert!(matches!(
        &runner.receive_failed(ClientTransportError::Internal("cable"))[..],
        [RunnerAction::Emit(InternEvent::Error(NetworkError::TransportReceive("cable")))]
    ));
    assert!(runner.is_alive);
    let gone: Vec<Action> = runner.receive_failed(ClientTransportError::Disconnected);
    assert!(matches!(&gone[..], [RunnerAction::Emit(InternEvent::Disconnected(None))]));
    assert!(!runner.is_alive);
}

#[test]
fn undecodable_messages_end_a_client_where_none_may_be_lost() {
    let mut runner = connected();
    let none: Vec<Action> = runner.decoded(ChannelId::new(5), None);
    assert!(none.is_empty());
    let done: Vec<Action> = runner.decoded(ChannelId::new(5), Some(Ok(())));
    assert!(done.is_empty());
    assert!(matches!(
        &runner.decoded(ChannelId::new(9), Some(Err(DecodeError("bad"))))[..],
        [RunnerAction::Emit(InternEvent::Error(NetworkError::Decode(DecodeError("bad"))))]
    ));
    assert!(runner.is_alive);
    assert!(matches!(
        &runner.decoded(ChannelId::new(5), Some(Err(DecodeError("bad"))))[..],
        [RunnerAction::Emit(InternEvent::Disconnected(Some(NetworkError::Decode(DecodeError(
            "bad"
        )))))]
    ));
    assert!(!runner.is_alive);
}

#[test]
fn messages_of_a_client_become_packets() {
    let mut runner = connected();
    match runner.start_task(send(Note(Ok(vec![7, 8])))) {
        TaskStep::Transmit { packet, channel_config } => {
            assert_eq!(packet, vec![5, 7, 8]);
            assert!(channel_config.reliable);
        }
        _ => panic!("expected a packet"),
    }
    assert!(matches!(
        &step(runner.start_task(send(Note(Ok(vec![0; 1048576])))))[..],
        [RunnerAction::Emit(InternEvent::Disconnected(None))]
    ));
    assert!(!runner.is_alive);
    let mut runner = connected();
    assert!(matches!(
        &step(runner.start_task(send(Note(Err("unencodable")))))[..],
        [
            RunnerAction::Send(InternalC2S::Disconnect),
            RunnerAction::Emit(InternEvent::Disconnected(Some(NetworkError::Encode(EncodeError(
                "unencodable"
            ))))),
        ]
    ));
    assert!(!runner.is_alive);
}

#[test]
fn messages_before_the_welcome_end_a_client() {
    let mut runner = runner();
    assert!(matches!(
        &step(runner.start_task(send(Note(Err("never encoded")))))[..],
        [RunnerAction::Emit(InternEvent::Disconnected(None))]
    ));
    assert!(!runner.is_alive);
}

#[test]
fn a_client_leaves_with_or_without_goodbye() {
    let mut runner = connected();
    assert!(matches!(
        &step(runner.start_task(RunnerTask::<Note>::Disconnect { notify_server: true }))[..],
        [
            RunnerAction::Send(InternalC2S::Disconnect),
            RunnerAction::Emit(InternEvent::Disconnected(None)),
        ]
    ));
    assert!(!runner.is_alive);
    let mut runner = connected();
    assert!(matches!(
        &step(runner.start_task(RunnerTask::<Note>::Disconnect { notify_server: false }))[..],
        [RunnerAction::Emit(InternEvent::Disconnected(None))]
    ));
    let mut runner = connected();
    runner.tasks_closed();
    assert!(!runner.is_alive);
}

#[test]
fn failures_of_a_client_to_send_are_reported() {
    let mut runner = connected();
    let sent: Vec<Action> = runner.sent(RELIABLE, Ok(()));
    assert!(sent.is_empty());
    let late: Vec<Action> = runner.sent(UNRELIABLE, Err(ClientTransportError::TimedOut));
    assert!(late.is_empty());
    assert!(matches!(
        &runner.sent(UNRELIABLE, Err(ClientTransportError::Internal("cable")))[..],
        [RunnerAction::Emit(InternEvent::Error(NetworkError::TransportSend("cable")))]
    ));
    assert!(runner.is_alive);
    assert!(matches!(
        &runner.sent(RELIABLE, Err(ClientTransportError::Internal("cable")))[..],
        [
            RunnerAction::Emit(InternEvent::Error(NetworkError::TransportSend("cable"))),
            RunnerAction::Emit(InternEvent::Disconnected(None)),
        ]
    ));
    assert!(!runner.is_alive);
    for err in [ClientTransportError::TimedOut, ClientTransportError::Disconnected] {
        let mut runner = connected();
        let gone: Vec<Action> = runner.sent(RELIABLE, Err(err));
        assert!(matches!(&gone[..], [RunnerAction::Emit(InternEvent::Disconnected(None))]));
        assert!(!runner.is_alive);
    }
}
