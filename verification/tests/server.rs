//! A server and its transports.

use netty::channel::Channels;
use netty::channel_id::ChannelId;
use netty::error::{DecodeError, EncodeError, NetworkError};
use netty::events::ToClient;
use netty::handle::{ConnectionHandle, ConnectionIdx, TransportIdx};
use netty::identity::ConnectionUuid;
use netty::message::{ChannelConfig, NetworkEncode, NetworkMessage};
use netty::protocol::{InternalC2S, InternalS2C};
use netty::server::runner::{Received, Runner, RunnerAction, RunnerTask, TaskStep};
use netty::server::{
    join_received, IncomingConnection, InternEvent, Processed, Server, ServerEvent,
};
use netty::transport::{stream, TransportError};
use std::any::TypeId;
use std::collections::VecDeque;
use std::sync::Arc;

type Decode = fn(&[u8]) -> Result<u8, DecodeError<&'static str>>;
type Event = InternEvent<&'static str, &'static str>;
type Action = RunnerAction<u64, &'static str, &'static str>;

const RELIABLE: ChannelConfig = ChannelConfig { reliable: true, ordered: true };
const UNRELIABLE: ChannelConfig = ChannelConfig { reliable: false, ordered: false };

#[derive(Debug)]
struct Note(Result<Vec<u8>, &'static str>);

impl NetworkMessage for Note {
    const CHANNEL_ID: u8 = 5;
    const CHANNEL_CONFIG: ChannelConfig = RELIABLE;
}

impl NetworkEncode for Note {
    type Error = &'static str;

    fn encode(&self) -> Result<Vec<u8>, EncodeError<&'static str>> {
        self.0.clone().map_err(EncodeError)
    }
}

struct Hint;

impl NetworkMessage for Hint {
    const CHANNEL_ID: u8 = 6;
    const CHANNEL_CONFIG: ChannelConfig = UNRELIABLE;
}

fn decode(buf: &[u8]) -> Result<u8, DecodeError<&'static str>> {
    buf.first().copied().ok_or(DecodeError("empty"))
}

fn channels() -> Arc<Channels<Decode>> {
    let mut channels: Channels<Decode> = Channels::new();
    channels
        .add_send::<Note>(TypeId::of::<Note>(), "Note")
        .add_recv::<Note>(TypeId::of::<Note>(), "Note", decode)
        .add_recv::<Hint>(TypeId::of::<Hint>(), "Hint", decode);
    Arc::new(channels)
}

fn handle(transport: u32, connection: u32) -> ConnectionHandle {
    ConnectionHandle {
        transport_idx: TransportIdx(transport),
        connection_idx: ConnectionIdx(connection),
    }
}

fn process(
    server: &mut Server<&'static str, Decode>,
    event: Event,
) -> Processed<&'static str> {
    server.process_event(event)
}

fn incoming(
    server: &mut Server<&'static str, Decode>,
    handle: ConnectionHandle,
) -> IncomingConnection {
    match process(server, InternEvent::IncomingConnection(handle, Arc::new("conn"))).event {
        Some(ServerEvent::IncomingConnection(incoming)) => incoming,
        _ => panic!("expected an incoming connection"),
    }
}

fn running(transports: usize, accepted: &[ConnectionHandle]) -> Server<&'static str, Decode> {
    let mut server = Server::new(channels());
    server.start::<Note>(transports);
    for handle in accepted {
        let mut incoming = incoming(&mut server, *handle);
        assert_eq!(server.accept(&mut incoming), Some(*handle));
    }
    server
}

fn targets(tasks: Vec<(TransportIdx, RunnerTask<Note>)>) -> Vec<ConnectionHandle> {
    let mut targets: Vec<ConnectionHandle> = tasks
        .into_iter()
        .map(|(transport_idx, task)| match task {
            RunnerTask::SendTo { message, connection_idx, channel_id, channel_config } => {
                assert_eq!(message.0, Ok(vec![1]));
                assert_eq!(channel_id, ChannelId::new(5));
                assert!(channel_config.reliable);
                ConnectionHandle { transport_idx, connection_idx }
            }
            RunnerTask::Disconnect { connection_idx, notify_client } => {
                assert!(notify_client);
                ConnectionHandle { transport_idx, connection_idx }
            }
        })
        .collect();
    targets.sort_by_key(|handle| handle.as_u64());
    targets
}

#[test]
fn a_server_is_up_when_all_its_transports_are() {
    let mut server = running(3, &[]);
    for (idx, is_up) in [(1, false), (0, false), (1, false), (2, true)] {
        let processed = process(&mut server, InternEvent::TransportIsUp(TransportIdx(idx)));
        assert!(
            matches!(processed.event, Some(ServerEvent::TransportIsUp(TransportIdx(i))) if i == idx)
        );
        assert_eq!(processed.server_is_up, is_up);
    }
}

#[test]
fn a_server_that_does_not_run_does_nothing() {
    let mut server: Server<&'static str, Decode> = Server::new(channels());
    assert!(!server.is_running());
    assert!(process(&mut server, InternEvent::ServerIsUp).event.is_none());
    assert!(server.send_to(Note(Ok(vec![1])), handle(9, 9)).is_none());
    assert!(server.broadcast(Note(Ok(vec![1]))).is_empty());
    assert!(server.broadcast_except(Note(Ok(vec![1])), handle(0, 0)).is_empty());
    assert!(server.disconnect::<Note>(handle(0, 0)).is_none());
    assert!(server.stop::<Note>().is_empty());
    assert!(server.recv().is_empty());
    assert!(server.recv_from(handle(0, 0)).is_none());
    let mut queue: VecDeque<Event> = VecDeque::from(vec![InternEvent::ServerIsUp]);
    assert!(server.process_events(&mut queue).event.is_none());
    assert_eq!(queue.len(), 1);
    let mut queue: VecDeque<Event> = VecDeque::from(vec![InternEvent::Disconnected(handle(0, 0))]);
    server.pass_over(&mut queue);
    assert_eq!(queue.len(), 1);
}

#[test]
fn a_connection_that_is_refused_is_ended() {
    let mut server = running(1, &[]);
    let refused = incoming(&mut server, handle(0, 4));
    assert_eq!(refused.handle(), handle(0, 4));
    let (event, task) = refused.let_go::<&'static str, &'static str, Note>().unwrap();
    assert!(matches!(
        task,
        RunnerTask::Disconnect { connection_idx: ConnectionIdx(4), notify_client: true }
    ));
    let mut queue: VecDeque<Event> = VecDeque::from(vec![event]);
    server.pass_over(&mut queue);
    assert!(queue.is_empty());
    let mut refused = refused;
    assert_eq!(server.accept(&mut refused), None);
    assert!(refused.let_go::<&'static str, &'static str, Note>().is_some());
}

#[test]
fn the_end_of_a_connection_is_told_once() {
    let mut server = running(1, &[handle(0, 1)]);
    let end = || InternEvent::Disconnected(handle(0, 1));
    let mut queue: VecDeque<Event> = VecDeque::from(vec![end(), end()]);
    server.pass_over(&mut queue);
    assert_eq!(queue.len(), 2);
    let event = server.process_events(&mut queue).event;
    assert!(matches!(event, Some(ServerEvent::Disconnected(h)) if h == handle(0, 1)));
    assert!(server.recv_from(handle(0, 1)).is_none());
    server.pass_over(&mut queue);
    assert!(queue.is_empty());
    assert!(server.process_events(&mut queue).event.is_none());
}

#[test]
fn reports_that_are_not_told_are_passed_over() {
    let mut server = running(1, &[handle(0, 1)]);
    let waiting = incoming(&mut server, handle(0, 2));
    let mut queue: VecDeque<Event> = VecDeque::from(vec![
        InternEvent::Disconnected(handle(0, 2)),
        InternEvent::Disconnected(handle(0, 7)),
        InternEvent::Error(None, NetworkError::Other),
        InternEvent::Disconnected(handle(0, 1)),
    ]);
    server.pass_over(&mut queue);
    assert_eq!(queue.len(), 2);
    let event = server.process_events(&mut queue).event;
    assert!(matches!(event, Some(ServerEvent::Error(None, NetworkError::Other))));
    assert_eq!(queue.len(), 1);
    let mut waiting = waiting;
    assert_eq!(server.accept(&mut waiting), None);
    let event = server.process_events(&mut queue).event;
    assert!(matches!(event, Some(ServerEvent::Disconnected(h)) if h == handle(0, 1)));
    assert!(server.process_events(&mut queue).event.is_none());
}

#[test]
fn the_next_event_is_the_first_that_is_told() {
    let mut server = running(1, &[handle(0, 1)]);
    let waiting = incoming(&mut server, handle(0, 2));
    let mut queue: VecDeque<Event> = VecDeque::from(vec![
        InternEvent::Disconnected(handle(0, 2)),
        InternEvent::Disconnected(handle(0, 7)),
        InternEvent::TransportIsUp(TransportIdx(0)),
        InternEvent::Disconnected(handle(0, 1)),
        InternEvent::Disconnected(handle(0, 1)),
    ]);
    let processed = server.next_event(&mut queue);
    assert!(matches!(processed.event, Some(ServerEvent::TransportIsUp(TransportIdx(0)))));
    assert!(processed.server_is_up);
    let mut waiting = waiting;
    assert_eq!(server.accept(&mut waiting), None);
    let event = server.next_event(&mut queue).event;
    assert!(matches!(event, Some(ServerEvent::Disconnected(h)) if h == handle(0, 1)));
    assert!(matches!(server.next_event(&mut queue).event, Some(ServerEvent::ServerIsUp)));
    assert!(server.next_event(&mut queue).event.is_none());
    assert!(queue.is_empty());
}

#[test]
fn what_came_from_each_connection_is_joined() {
    let (a, b) = (handle(0, 1), handle(0, 2));
    let batches = vec![vec![("x", a), ("y", a)], vec![], vec![("z", b)]];
    assert_eq!(join_received(batches), vec![("x", a), ("y", a), ("z", b)]);
    assert!(join_received::<u8>(vec![]).is_empty());
}

#[test]
fn being_up_is_queued_behind_what_waits() {
    let mut server = running(1, &[]);
    let mut queue: VecDeque<Event> = VecDeque::from(vec![
        InternEvent::TransportIsUp(TransportIdx(0)),
        InternEvent::Error(None, NetworkError::Other),
    ]);
    assert!(server.process_events(&mut queue).server_is_up);
    let event = server.process_events(&mut queue).event;
    assert!(matches!(event, Some(ServerEvent::Error(None, NetworkError::Other))));
    let event = server.process_events(&mut queue).event;
    assert!(matches!(event, Some(ServerEvent::ServerIsUp)));
}

#[test]
fn messages_go_to_whom_they_are_for() {
    let all = [handle(0, 1), handle(0, 2), handle(1, 1)];
    let server = running(2, &all);
    assert_eq!(targets(server.broadcast(Note(Ok(vec![1])))), all);
    assert_eq!(
        targets(server.broadcast_except(Note(Ok(vec![1])), handle(0, 2))),
        [handle(0, 1), handle(1, 1)]
    );
    assert_eq!(targets(server.broadcast_except(Note(Ok(vec![1])), handle(1, 9))), all);
    let task = server.send_to(Note(Ok(vec![1])), handle(1, 1)).unwrap();
    assert_eq!(targets(vec![task]), [handle(1, 1)]);
    assert_eq!(targets(ToClient::Broadcast(Note(Ok(vec![1]))).hand_to(&server)), all);
    assert_eq!(
        targets(ToClient::BroadcastExcept(Note(Ok(vec![1])), handle(1, 1)).hand_to(&server)),
        [handle(0, 1), handle(0, 2)]
    );
    assert_eq!(
        targets(ToClient::Single(Note(Ok(vec![1])), handle(0, 1)).hand_to(&server)),
        [handle(0, 1)]
    );
}

#[test]
fn a_server_that_stops_ends_its_connections() {
    let mut server = running(2, &[handle(0, 1), handle(1, 0)]);
    let mut received: Vec<ConnectionHandle> =
        server.recv().into_iter().map(|(handle, _)| handle).collect();
    received.sort_by_key(|handle| handle.as_u64());
    assert_eq!(received, [handle(0, 1), handle(1, 0)]);
    let task = server.disconnect::<Note>(handle(1, 0)).unwrap();
    assert_eq!(targets(vec![task]), [handle(1, 0)]);
    assert_eq!(targets(server.stop()), [handle(0, 1)]);
    assert!(!server.is_running());
    let mut server = running(2, &[handle(0, 1)]);
    assert_eq!(targets(server.start(1)), [handle(0, 1)]);
    assert!(server.recv().is_empty());
    let event = process(&mut server, InternEvent::DisconnectedSelf(Some(NetworkError::Io("x"))));
    assert!(matches!(
        event.event,
        Some(ServerEvent::DisconnectedSelf(Some(NetworkError::Io("x"))))
    ));
    assert!(!server.is_running());
}

fn runner() -> Runner<u64, &'static str, Decode> {
    Runner::new(TransportIdx(2), stream::properties(), channels())
}

fn uuid(byte: u8) -> ConnectionUuid {
    ConnectionUuid::from_bytes(&[byte; 16])
}

/// A transport to which remotes 10 and 20 are connected.
fn connected() -> Runner<u64, &'static str, Decode> {
    let mut runner = runner();
    runner.connect_as::<&'static str>(10, Arc::new("ten"), uuid(1));
    runner.connect_as::<&'static str>(20, Arc::new("twenty"), uuid(2));
    runner
}

fn acts(received: Received<u64, &'static str, &'static str>) -> Vec<Action> {
    match received {
        Received::Act(actions) => actions,
        _ => panic!("expected actions"),
    }
}

#[test]
fn a_transport_reports_that_it_started() {
    let mut runner = runner();
    assert!(matches!(
        runner.started::<()>(Ok(())),
        InternEvent::TransportIsUp(TransportIdx(2))
    ));
    assert!(runner.is_alive);
    assert!(matches!(
        runner.started(Err(NetworkError::Io("port"))),
        InternEvent::DisconnectedSelf(Some(NetworkError::Io("port")))
    ));
    assert!(!runner.is_alive);
}

#[test]
fn remotes_are_connected_under_numbers_of_their_own() {
    let mut runner = runner();
    let actions: Vec<Action> = runner.connect_as(10, Arc::new("ten"), uuid(1));
    assert!(matches!(
        &actions[..],
        [
            RunnerAction::Send(10, InternalS2C::Connect(ConnectionIdx(0), sent)),
            RunnerAction::Emit(InternEvent::IncomingConnection(h, connection)),
        ] if *sent == uuid(1) && *h == handle(2, 0) && **connection == "ten"
    ));
    let actions: Vec<Action> = runner.connect(20, Arc::new("twenty"));
    assert!(matches!(
        &actions[..],
        [
            RunnerAction::Send(20, InternalS2C::Connect(ConnectionIdx(1), _)),
            RunnerAction::Emit(InternEvent::IncomingConnection(h, _)),
        ] if *h == handle(2, 1)
    ));
}

#[test]
fn connection_numbers_start_over() {
    let mut runner = runner();
    runner.next_connection_idx = u32::MAX;
    let _: Vec<Action> = runner.connect_as(10, Arc::new("ten"), uuid(1));
    assert_eq!(runner.next_connection_idx, 0);
}

#[test]
fn messages_are_delivered_to_the_connection_of_the_sender() {
    let mut runner = connected();
    match runner.receive::<&'static str>(20, &[5, 1, 2]) {
        Received::Deliver { connection_idx, connection, channel_id } => {
            assert_eq!(connection_idx, ConnectionIdx(1));
            assert_eq!(*connection, "twenty");
            assert_eq!(channel_id, ChannelId::new(5));
        }
        _ => panic!("expected a delivery"),
    }
    assert!(acts(runner.receive(20, &[])).is_empty());
    assert!(acts(runner.receive(20, &[128])).is_empty());
    assert!(acts(runner.receive(20, &[200, 1])).is_empty());
}

#[test]
fn strangers_are_asked_who_they_are() {
    let mut runner = connected();
    assert!(matches!(
        &acts(runner.receive(30, &[5, 1, 2]))[..],
        [RunnerAction::Send(30, InternalS2C::RequestId)]
    ));
    assert!(acts(runner.receive(30, &[])).is_empty());
    assert!(acts(runner.receive(30, InternalC2S::Disconnect.encode().as_slice())).is_empty());
    assert!(matches!(
        runner.receive::<&'static str>(30, InternalC2S::Connect.encode().as_slice()),
        Received::Connect
    ));
}

#[test]
fn a_client_that_says_goodbye_is_forgotten() {
    let mut runner = connected();
    let goodbye = InternalC2S::Disconnect.encode();
    assert!(matches!(
        &acts(runner.receive(10, goodbye.as_slice()))[..],
        [RunnerAction::Cleanup(10), RunnerAction::Emit(InternEvent::Disconnected(h))]
            if *h == handle(2, 0)
    ));
    assert!(acts(runner.receive(10, goodbye.as_slice())).is_empty());
}

#[test]
fn a_client_that_shows_its_uuid_keeps_its_connection() {
    let shown = InternalC2S::ProvideId(
        ConnectionIdx(u32::from_le_bytes([1, 2, 3, 4])),
        ConnectionUuid::from_bytes(&[4, 5, 6, 7, 8, 9, 10, 11, 12, 13, 14, 15, 16, 17, 18, 19]),
    );
    let packet = shown.encode();
    let read = ConnectionUuid::from_bytes(&packet.as_slice()[4..20]);
    let mut runner = runner();
    runner.next_connection_idx = u32::from_le_bytes([130, 1, 2, 3]);
    runner.connect_as::<&'static str>(10, Arc::new("ten"), read);
    runner.connect_as::<&'static str>(11, Arc::new("eleven"), uuid(3));
    assert!(acts(runner.receive(30, packet.as_slice())).is_empty());
    assert!(matches!(
        runner.receive::<&'static str>(30, &[5]),
        Received::Deliver { connection, .. } if *connection == "ten"
    ));
    assert!(matches!(&acts(runner.receive(10, &[5]))[..], [RunnerAction::Send(10, _)]));
    assert!(matches!(
        runner.receive::<&'static str>(11, &[5]),
        Received::Deliver { connection, .. } if *connection == "eleven"
    ));
}

#[test]
fn a_wrong_uuid_moves_no_connection() {
    let mut runner = runner();
    runner.next_connection_idx = u32::from_le_bytes([130, 0, 0, 0]);
    runner.connect_as::<&'static str>(10, Arc::new("ten"), uuid(9));
    let packet = InternalC2S::ProvideId(ConnectionIdx(0), uuid(0)).encode();
    assert!(acts(runner.receive(30, packet.as_slice())).is_empty());
    assert!(matches!(&acts(runner.receive(30, &[5]))[..], [RunnerAction::Send(30, _)]));
    assert!(matches!(
        runner.receive::<&'static str>(10, &[5]),
        Received::Deliver { connection, .. } if *connection == "ten"
    ));
}

#[test]
fn failures_to_receive_are_reported() {
    let mut runner = connected();
    assert!(runner.receive_failed::<&'static str>(TransportError::TimedOut).is_empty());
    assert!(matches!(
        &runner.receive_failed(TransportError::Internal("cable"))[..],
        [RunnerAction::Emit(InternEvent::Error(None, NetworkError::TransportReceive("cable")))]
    ));
    let actions: Vec<Action> = runner.receive_failed(TransportError::RemoteDisconnected(20));
    assert!(matches!(
        &actions[..],
        [RunnerAction::Cleanup(20), RunnerAction::Emit(InternEvent::Disconnected(h))]
            if *h == handle(2, 1)
    ));
    let actions: Vec<Action> = runner.receive_failed(TransportError::RemoteDisconnected(20));
    assert!(actions.is_empty());
    assert!(runner.is_alive);
    let actions: Vec<Action> = runner.receive_failed(TransportError::Disconnected);
    assert!(matches!(
        &actions[..],
        [RunnerAction::Emit(InternEvent::DisconnectedSelf(None))]
    ));
    assert!(!runner.is_alive);
}

#[test]
fn messages_that_cannot_be_decoded_are_reported() {
    let runner = connected();
    let undecoded = || Some(Err(DecodeError("bad")));
    assert!(matches!(
        &runner.decoded(10, ConnectionIdx(0), ChannelId::new(5), undecoded())[..],
        [RunnerAction::Cleanup(10), RunnerAction::Emit(InternEvent::Disconnected(h))]
            if *h == handle(2, 0)
    ));
    assert!(matches!(
        &runner.decoded(10, ConnectionIdx(0), ChannelId::new(6), undecoded())[..],
        [RunnerAction::Emit(InternEvent::Error(Some(h), NetworkError::Decode(DecodeError("bad"))))]
            if *h == handle(2, 0)
    ));
    let done: Option<Result<(), DecodeError<&'static str>>> = Some(Ok(()));
    assert!(runner.decoded(10, ConnectionIdx(0), ChannelId::new(5), done).is_empty());
    let none: Option<Result<(), DecodeError<&'static str>>> = None;
    assert!(runner.decoded(10, ConnectionIdx(0), ChannelId::new(7), none).is_empty());
}

fn send(connection: u32, message: Note) -> RunnerTask<Note> {
    RunnerTask::SendTo {
        message: Arc::new(message),
        connection_idx: ConnectionIdx(connection),
        channel_id: ChannelId::new(5),
        channel_config: RELIABLE,
    }
}

#[test]
fn messages_become_packets() {
    let mut runner = connected();
    match runner.start_task(send(1, Note(Ok(vec![7, 8])))) {
        TaskStep::Transmit { id, packet, connection_idx, channel_config } => {
            assert_eq!(id, 20);
            assert_eq!(packet, vec![5, 7, 8]);
            assert_eq!(connection_idx, ConnectionIdx(1));
            assert!(channel_config.reliable);
        }
        _ => panic!("expected a packet"),
    }
    assert!(matches!(
        runner.start_task(send(7, Note(Err("never encoded")))),
        TaskStep::Act(actions) if actions.is_empty()
    ));
    assert!(runner.is_alive);
}

#[test]
fn messages_that_cannot_be_packets_end_the_transport() {
    let mut runner = connected();
    match runner.start_task(send(0, Note(Ok(vec![0; 1048575])))) {
        TaskStep::Transmit { packet, .. } => assert_eq!(packet.len(), 1048576),
        _ => panic!("expected a packet"),
    }
    assert!(matches!(
        runner.start_task(send(0, Note(Ok(vec![0; 1048576])))),
        TaskStep::Act(actions)
            if matches!(&actions[..], [RunnerAction::Emit(InternEvent::DisconnectedSelf(None))])
    ));
    assert!(!runner.is_alive);
    let mut runner = connected();
    assert!(matches!(
        runner.start_task(send(0, Note(Err("unencodable")))),
        TaskStep::Act(actions) if matches!(
            &actions[..],
            [RunnerAction::Emit(InternEvent::DisconnectedSelf(Some(NetworkError::Encode(
                EncodeError("unencodable")
            ))))]
        )
    ));
    assert!(!runner.is_alive);
}

#[test]
fn connections_are_ended_on_demand() {
    let mut runner = connected();
    let end = |connection, notify_client| RunnerTask::<Note>::Disconnect {
        connection_idx: ConnectionIdx(connection),
        notify_client,
    };
    assert!(matches!(
        runner.start_task(end(0, true)),
        TaskStep::Act(actions) if matches!(
            &actions[..],
            [RunnerAction::Send(10, InternalS2C::Disconnect), RunnerAction::Cleanup(10)]
        )
    ));
    assert!(matches!(
        runner.start_task(end(0, true)),
        TaskStep::Act(actions) if actions.is_empty()
    ));
    assert!(matches!(
        runner.start_task(end(1, false)),
        TaskStep::Act(actions) if matches!(&actions[..], [RunnerAction::Cleanup(20)])
    ));
}

#[test]
fn failures_to_send_are_reported() {
    let mut runner = connected();
    let idx = ConnectionIdx(0);
    let sent: Vec<Action> = runner.sent(idx, RELIABLE, Ok(()));
    assert!(sent.is_empty());
    let late: Vec<Action> = runner.sent(idx, UNRELIABLE, Err(TransportError::TimedOut));
    assert!(late.is_empty());
    assert!(matches!(
        &runner.sent(idx, UNRELIABLE, Err(TransportError::Internal("cable")))[..],
        [RunnerAction::Emit(InternEvent::Error(Some(h), NetworkError::TransportSend("cable")))]
            if *h == handle(2, 0)
    ));
    let gone: Vec<Action> = runner.sent(idx, RELIABLE, Err(TransportError::RemoteDisconnected(())));
    assert!(matches!(
        &gone[..],
        [RunnerAction::Cleanup(10), RunnerAction::Emit(InternEvent::Disconnected(h))]
            if *h == handle(2, 0)
    ));
    let gone: Vec<Action> = runner.sent(idx, RELIABLE, Err(TransportError::RemoteDisconnected(())));
    assert!(gone.is_empty());
    assert!(runner.is_alive);
    let late: Vec<Action> = runner.sent(idx, RELIABLE, Err(TransportError::TimedOut));
    assert!(matches!(&late[..], [RunnerAction::Emit(InternEvent::DisconnectedSelf(None))]));
    assert!(!runner.is_alive);
    let mut runner = connected();
    assert!(matches!(
        &runner.sent(idx, RELIABLE, Err(TransportError::Internal("cable")))[..],
        [
            RunnerAction::Emit(InternEvent::Error(Some(_), NetworkError::TransportSend("cable"))),
            RunnerAction::Emit(InternEvent::DisconnectedSelf(None)),
        ]
    ));
    assert!(!runner.is_alive);
    let mut runner = connected();
    let gone: Vec<Action> = runner.sent(idx, UNRELIABLE, Err(TransportError::Disconnected));
    assert!(matches!(&gone[..], [RunnerAction::Emit(InternEvent::DisconnectedSelf(None))]));
    assert!(!runner.is_alive);
    let mut runner = connected();
    runner.tasks_closed();
    assert!(!runner.is_alive);
}
