//! What the transports make of what their sockets, streams and queues report.

use netty::transport::channel::{client_receive, server_receive, ClientFactory, ConnectionId};
use netty::transport::reconnect::{ReconnectError, ReconnectOnDisconnectClientTransport};
use netty::transport::remotes::{fill, ReadFailure, ReadStep, Remotes};
use netty::transport::stream::{frame_header, FrameReader, FrameStep, ReadPosition};
use netty::transport::udp::DatagramError;
use netty::transport::{
    channel, client_outcome, reconnect, stream, udp, ClientTransportError, TransportError,
};
use netty::web::{Answer, ReadError, ReceiveBuffer};

#[test]
fn transports_promise_what_they_keep() {
    for reliable in [channel::properties(), stream::properties()] {
        assert!(reliable.is_reliable && reliable.is_ordered);
        assert_eq!(reliable.max_packet_size.get(), 1048576);
    }
    let datagrams = udp::properties();
    assert!(!datagrams.is_reliable && !datagrams.is_ordered);
    assert_eq!(datagrams.max_packet_size.get(), 256);
    let anew = reconnect::properties(stream::properties());
    assert!(!anew.is_reliable && !anew.is_ordered);
    assert_eq!(anew.max_packet_size.get(), 1048576);
}

#[test]
fn frames_start_with_their_size() {
    assert_eq!(frame_header(&[7, 8, 9]), vec![3, 0, 0, 0]);
    assert_eq!(frame_header(&[0; 258]), vec![2, 1, 0, 0]);
    assert_eq!(frame_header(&[]), vec![0, 0, 0, 0]);
}

#[test]
fn frames_are_read_back_in_order() {
    let packets: Vec<Vec<u8>> = vec![vec![1, 2, 3], vec![], vec![4; 300]];
    let mut bytes = Vec::new();
    for packet in &packets {
        bytes.extend(frame_header(packet));
        bytes.extend(packet);
    }
    let mut reader = FrameReader::new(300);
    let mut read = Vec::new();
    while !bytes.is_empty() || reader.wanted() == 0 {
        let rest = bytes.split_off(reader.wanted());
        match reader.take_in(bytes) {
            FrameStep::ReadOn => (),
            FrameStep::Packet(packet) => read.push(packet),
            FrameStep::TooLarge => panic!("too large"),
        }
        bytes = rest;
    }
    assert_eq!(read, packets);
    assert_eq!(reader.position, ReadPosition::Header);
}

#[test]
fn a_packet_without_room_is_refused_by_its_size() {
    let mut reader = FrameReader::new(2);
    assert!(matches!(reader.take_in(frame_header(&[1, 2, 3])), FrameStep::TooLarge));
    assert!(matches!(reader.take_in(frame_header(&[1, 2])), FrameStep::ReadOn));
    assert_eq!(reader.wanted(), 2);
}

#[test]
fn remotes_that_cannot_be_written_to_are_gone() {
    let mut remotes: Remotes<u64, &str> = Remotes::new();
    assert!(matches!(remotes.writer::<()>(1), Err(TransportError::RemoteDisconnected(()))));
    remotes.insert(1, "one");
    remotes.insert(2, "two");
    assert_eq!(remotes.writer::<()>(1).unwrap(), &"one");
    assert!(remotes.written::<(), ()>(1, Ok(())).is_ok());
    assert!(remotes.keep_reading(true, 1));
    assert!(matches!(
        remotes.written::<(), ()>(1, Err(())),
        Err(TransportError::RemoteDisconnected(()))
    ));
    assert!(!remotes.keep_reading(true, 1));
    assert!(!remotes.keep_reading(false, 2));
    remotes.cleanup(2);
    assert!(!remotes.keep_reading(true, 2));
}

#[test]
fn remotes_with_broken_streams_are_gone() {
    let mut remotes: Remotes<u64, ()> = Remotes::new();
    remotes.insert(1, ());
    assert!(matches!(remotes.read(1, Ok(vec![5])), ReadStep::HandOn(1, Ok(packet)) if packet == [5]));
    assert!(matches!(remotes.read(1, Err(ReadFailure::WouldBlock)), ReadStep::ReadOn));
    assert!(matches!(remotes.read(1, Err(ReadFailure::TimedOut)), ReadStep::ReadOn));
    assert!(remotes.keep_reading(true, 1));
    assert!(matches!(remotes.read(1, Err(ReadFailure::Other)), ReadStep::HandOn(1, Err(()))));
    assert!(!remotes.keep_reading(true, 1));
}

#[test]
fn a_stream_hands_on_its_packets_and_then_its_end() {
    let mut remotes: Remotes<u64, ()> = Remotes::new();
    remotes.insert(1, ());
    let mut results = vec![
        Err(ReadFailure::Other),
        Ok(vec![2]),
        Err(ReadFailure::WouldBlock),
        Err(ReadFailure::TimedOut),
        Ok(vec![1]),
    ];
    let mut handed_on = Vec::new();
    while remotes.keep_reading(true, 1) {
        if let ReadStep::HandOn(id, packet) = remotes.read(1, results.pop().unwrap()) {
            handed_on.push((id, packet));
        }
    }
    assert_eq!(handed_on, vec![(1, Ok(vec![1])), (1, Ok(vec![2])), (1, Err(()))]);
    assert!(results.is_empty());
}

#[test]
fn a_remote_that_connects_again_is_reached_again() {
    let mut remotes: Remotes<u64, &str> = Remotes::new();
    remotes.insert(1, "old");
    remotes.insert(2, "other");
    assert!(remotes.written::<(), ()>(1, Err(())).is_err());
    assert!(remotes.writer::<()>(1).is_err());
    assert!(remotes.writer::<()>(1).is_err());
    remotes.insert(1, "new");
    assert_eq!(remotes.writer::<()>(1).unwrap(), &"new");
    assert_eq!(remotes.writer::<()>(2).unwrap(), &"other");
    remotes.cleanup(1);
    assert!(remotes.writer::<()>(1).is_err());
}

#[test]
fn handed_on_packets_are_received() {
    let mut remotes: Remotes<u64, ()> = Remotes::new();
    remotes.insert(1, ());
    let mut buf = [0u8; 4];
    let received = remotes.receive::<()>(Some((1, Ok(vec![7, 8]))), &mut buf);
    assert!(matches!(received, Ok((2, 1))));
    assert_eq!(buf, [7, 8, 0, 0]);
    let received = remotes.receive::<()>(Some((1, Err(()))), &mut buf);
    assert!(matches!(received, Err(TransportError::RemoteDisconnected(1))));
    assert!(!remotes.keep_reading(true, 1));
    assert!(matches!(remotes.receive::<()>(None, &mut buf), Err(TransportError::Disconnected)));
    assert_eq!(buf, [7, 8, 0, 0]);
}

#[test]
fn queues_hand_out_what_there_is_room_for() {
    let mut buf = [0u8; 2];
    let received = server_receive::<()>(Some((ConnectionId(3), vec![1, 2, 3])), &mut buf);
    assert!(matches!(received, Ok((2, ConnectionId(3)))));
    assert_eq!(buf, [1, 2]);
    assert!(matches!(client_receive::<()>(Some(vec![9]), &mut buf), Ok(1)));
    assert_eq!(buf, [9, 2]);
    assert!(matches!(server_receive::<()>(None, &mut buf), Err(TransportError::Disconnected)));
    assert!(matches!(
        client_receive::<()>(None, &mut buf),
        Err(ClientTransportError::Disconnected)
    ));
    assert_eq!(fill(&mut buf, &[]), 0);
}

#[test]
fn clients_of_one_server_have_different_numbers() {
    let mut factory = ClientFactory::new();
    assert!(factory.can_create_client());
    assert_eq!(factory.create_client(), ConnectionId(0));
    assert_eq!(factory.create_client(), ConnectionId(1));
    assert_eq!(factory.create_client(), ConnectionId(2));
}

#[test]
fn failed_streams_of_clients_are_gone() {
    assert!(matches!(client_outcome::<u8, (), ()>(Ok(4)), Ok(4)));
    assert!(matches!(
        client_outcome::<u8, (), ()>(Err(())),
        Err(ClientTransportError::Disconnected)
    ));
}

#[test]
fn datagrams_are_sent_whole_or_not() {
    assert!(matches!(udp::sent::<()>(3, Ok(3)), Ok(())));
    match udp::sent::<()>(3, Ok(2)) {
        Err(ClientTransportError::Internal(err)) => {
            assert_eq!(err.label(), Some("failed to send entire buffer"))
        }
        _ => panic!("expected an error"),
    }
    assert!(matches!(
        udp::sent(3, Err((ReadFailure::WouldBlock, "io"))),
        Err(ClientTransportError::TimedOut)
    ));
    assert!(matches!(
        udp::sent(3, Err((ReadFailure::Other, "io"))),
        Err(ClientTransportError::Internal(DatagramError::Io("io")))
    ));
    assert!(matches!(udp::received::<u8, ()>(Ok(4)), Ok(4)));
    assert!(matches!(
        udp::received::<u8, &str>(Err((ReadFailure::TimedOut, "io"))),
        Err(ClientTransportError::TimedOut)
    ));
    assert!(matches!(
        udp::received::<u8, &str>(Err((ReadFailure::Other, "io"))),
        Err(ClientTransportError::Internal(DatagramError::Io("io")))
    ));
    assert_eq!(DatagramError::Io("io").label(), None);
}

#[test]
fn errors_of_clients_are_errors_of_transports() {
    let err: TransportError<u8, u8> = TransportError::from(ClientTransportError::Internal(5));
    assert!(matches!(err, TransportError::Internal(5)));
    let err: TransportError<u8, u8> = TransportError::from(ClientTransportError::Disconnected);
    assert!(matches!(err, TransportError::Disconnected));
    let err: TransportError<u8, u8> = TransportError::from(ClientTransportError::TimedOut);
    assert!(matches!(err, TransportError::TimedOut));
}

#[test]
fn a_transport_that_is_gone_is_made_anew() {
    let mut transport = ReconnectOnDisconnectClientTransport::new(1, || Ok::<i32, &str>(2));
    assert!(matches!(
        transport.failed(ClientTransportError::TimedOut),
        ClientTransportError::TimedOut
    ));
    assert!(matches!(
        transport.failed(ClientTransportError::Internal("cable")),
        ClientTransportError::Internal(ReconnectError::Transport("cable"))
    ));
    assert_eq!(transport.transport, 1);
    match transport.failed(ClientTransportError::Disconnected) {
        ClientTransportError::Internal(err) => {
            assert_eq!(err.label(), Some("reconnected after disconnect"))
        }
        _ => panic!("expected an internal error"),
    }
    assert_eq!(transport.transport, 2);
}

#[test]
fn a_transport_that_is_not_gone_is_not_made_anew() {
    let mut transport = ReconnectOnDisconnectClientTransport::new(1, || -> Result<i32, &str> {
        panic!("made anew")
    });
    assert!(matches!(
        transport.failed(ClientTransportError::TimedOut),
        ClientTransportError::TimedOut
    ));
    assert_eq!(transport.transport, 1);
}

#[test]
fn a_transport_that_cannot_be_made_anew_stays() {
    let mut transport =
        ReconnectOnDisconnectClientTransport::new(1, || Err::<i32, &str>("refused"));
    assert!(matches!(
        transport.failed(ClientTransportError::Disconnected),
        ClientTransportError::Internal(ReconnectError::Transport("refused"))
    ));
    assert_eq!(transport.transport, 1);
    assert_eq!(ReconnectError::Transport("refused").label(), None);
}

#[test]
fn chunks_are_read_in_order_and_in_full() {
    let mut buffer = ReceiveBuffer::new();
    assert_eq!(buffer.poll_read(4), None);
    assert_eq!(buffer.answered::<()>(Answer::Chunk(vec![1, 2, 3, 4, 5]), 2).unwrap(), vec![1, 2]);
    assert_eq!(buffer.poll_read(2), Some(vec![3, 4]));
    assert_eq!(buffer.poll_read(0), Some(vec![]));
    assert_eq!(buffer.poll_read(9), Some(vec![5]));
    assert_eq!(buffer.poll_read(9), None);
    assert_eq!(buffer.answered::<()>(Answer::Chunk(vec![6]), 9).unwrap(), vec![6]);
    assert_eq!(buffer.poll_read(9), None);
    assert_eq!(buffer.answered::<()>(Answer::Done, 9).unwrap(), Vec::<u8>::new());
}

#[test]
fn what_the_browser_throws_is_reported() {
    let mut buffer = ReceiveBuffer::new();
    let thrown = [Answer::Failed("x"), Answer::NoDone("x"), Answer::NoValue("x")];
    for answer in thrown {
        match buffer.answered(answer, 1) {
            Err(err) => {
                assert!(matches!(err, ReadError::Thrown("x")));
                assert_eq!(err.label(), None);
            }
            Ok(_) => panic!("expected an error"),
        }
    }
    match buffer.answered::<&str>(Answer::DoneNotBoolean, 1) {
        Err(err) => assert_eq!(err.label(), Some("done is not a boolean")),
        Ok(_) => panic!("expected an error"),
    }
}
