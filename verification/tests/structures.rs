//! The maps, numbers and notes that the library is built on.

use netty::channel::Channels;
use netty::channel_id::ChannelId;
use netty::connection::{ConnectionState, ReceiveError};
use netty::double_key_map::DoubleKeyMap;
use netty::error::{DecodeError, EncodeError, NetworkError};
use netty::handle::{ConnectionHandle, ConnectionIdx, TransportIdx};
use netty::handle_map::HandleMap;
use netty::identity::ConnectionUuid;
use netty::message::{ChannelConfig, NetworkMessage};
use netty::new_data::NewDataAvailable;
use netty::transport::MaxPacketSize;
use netty::transport::{stream, udp};
use std::any::TypeId;

fn handle(transport: u32, connection: u32) -> ConnectionHandle {
    ConnectionHandle {
        transport_idx: TransportIdx(transport),
        connection_idx: ConnectionIdx(connection),
    }
}

#[test]
fn double_key_map_finds_entries_by_either_key() {
    let mut map: DoubleKeyMap<u32, u64, &str> = DoubleKeyMap::new();
    map.insert(1, 10, "a");
    map.insert(2, 20, "b");
    assert_eq!(map.get1(&1), Some((&1, &10, &"a")));
    assert_eq!(map.get2(&20), Some((&2, &20, &"b")));
    assert_eq!(map.get1(&3), None);
    assert_eq!(map.get2(&1), None);
    *map.get1_mut(&1).unwrap().2 = "c";
    assert_eq!(map.get2(&10), Some((&1, &10, &"c")));
    *map.get2_mut(&20).unwrap().2 = "d";
    assert_eq!(map.get1(&2), Some((&2, &20, &"d")));
    assert!(map.get1_mut(&9).is_none());
    assert!(map.get2_mut(&9).is_none());
}

#[test]
fn double_key_map_forgets_under_both_keys() {
    let mut map: DoubleKeyMap<u32, u64, &str> = DoubleKeyMap::default();
    map.insert(1, 10, "a");
    map.insert(2, 20, "b");
    map.insert(3, 30, "c");
    assert_eq!(map.remove1(&1), Some((1, 10, "a")));
    assert_eq!(map.get2(&10), None);
    assert_eq!(map.remove2(&20), Some((2, 20, "b")));
    assert_eq!(map.get1(&2), None);
    assert_eq!(map.remove1(&1), None);
    assert_eq!(map.remove2(&20), None);
    assert_eq!(map.get1(&3), Some((&3, &30, &"c")));
}

#[test]
fn double_key_map_gives_up_entries_for_a_new_one() {
    let mut map: DoubleKeyMap<u32, u64, &str> = DoubleKeyMap::new();
    map.insert(1, 10, "a");
    map.insert(2, 20, "b");
    map.insert(1, 20, "c");
    assert_eq!(map.get1(&1), Some((&1, &20, &"c")));
    assert_eq!(map.get1(&2), None);
    assert_eq!(map.get2(&10), None);
}

#[test]
fn double_key_map_removal_undoes_insertion() {
    let mut map: DoubleKeyMap<u32, u64, &str> = DoubleKeyMap::new();
    map.insert(1, 10, "a");
    map.insert(2, 20, "b");
    assert_eq!(map.remove1(&2), Some((2, 20, "b")));
    assert_eq!(map.get1(&1), Some((&1, &10, &"a")));
    assert_eq!(map.get2(&10), Some((&1, &10, &"a")));
    assert_eq!(map.get1(&2), None);
    assert_eq!(map.get2(&20), None);
}

#[test]
fn handles_have_numbers_of_their_own() {
    assert_eq!(handle(1, 2).as_u64(), 0x1_0000_0002);
    assert_eq!(handle(0, u32::MAX).as_u64(), 0xffff_ffff);
    assert_eq!(handle(u32::MAX, 0).as_u64(), 0xffff_ffff_0000_0000);
    assert_eq!(ConnectionHandle::from_u64(0x1_0000_0002), handle(1, 2));
    assert_eq!(ConnectionHandle::from_u64(handle(7, 9).as_u64()), handle(7, 9));
    assert_ne!(handle(1, 0).as_u64(), handle(0, 1).as_u64());
}

#[test]
fn handle_map_keeps_values_by_handle() {
    let mut map: HandleMap<&str> = HandleMap::new();
    map.insert(handle(0, 1), "a");
    map.insert(handle(1, 0), "b");
    map.insert(handle(0, 1), "c");
    assert_eq!(map.get(&handle(0, 1)), Some(&"c"));
    let mut handles = map.handles();
    handles.sort_by_key(|handle| handle.as_u64());
    assert_eq!(handles, vec![handle(0, 1), handle(1, 0)]);
    assert_eq!(map.remove(&handle(1, 0)), Some("b"));
    assert_eq!(map.remove(&handle(1, 0)), None);
    assert_eq!(map.get(&handle(1, 0)), None);
}

#[test]
fn channel_numbers_end_at_127() {
    assert_eq!(ChannelId::try_new(127).unwrap().value(), 127);
    assert!(ChannelId::try_new(128).is_none());
    assert!(ChannelId::try_new(255).is_none());
    assert_eq!(ChannelId::new(0), ChannelId::try_new(0).unwrap());
}

#[test]
fn channels_are_named_by_number() {
    assert_eq!(ChannelId::new(0).label(), "Channel(0)");
    assert_eq!(ChannelId::new(42).label(), "Channel(42)");
    assert_eq!(ChannelId::new(127).label(), "Channel(127)");
}

#[test]
fn uuids_are_random_and_marked() {
    let first = ConnectionUuid::fresh();
    let second = ConnectionUuid::fresh();
    assert_ne!(first, second);
    let bytes = first.as_bytes();
    assert_eq!(bytes.len(), 16);
    assert_eq!(bytes[6] & 0xf0, 0x40);
    assert_eq!(bytes[8] & 0xc0, 0x80);
    assert_eq!(ConnectionUuid::from_bytes(&bytes), first);
}

#[test]
fn uuid_bytes_are_those_of_the_uuid_crate() {
    let uuid = uuid::Uuid::new_v4();
    let ours = ConnectionUuid::from_bytes(uuid.as_bytes());
    assert_eq!(ours.as_bytes(), uuid.as_bytes().to_vec());
    assert_eq!(ours.0, uuid.to_u128_le());
}

#[test]
fn arrivals_are_noted_until_a_wait_ends() {
    let mut new_data = NewDataAvailable::new();
    assert!(new_data.keep_waiting());
    assert!(!new_data.wait_timeout());
    new_data.notify();
    new_data.notify();
    assert!(!new_data.keep_waiting());
    assert!(new_data.wait_timeout());
    assert!(!new_data.wait_timeout());
}

#[test]
fn packet_sizes_have_limits() {
    assert_eq!(MaxPacketSize::new(256).get(), 256);
    assert_eq!(MaxPacketSize::max().get(), 1024 * 1024);
    assert_eq!(*MaxPacketSize::new(300), 300);
    assert_eq!(MaxPacketSize::new(1024 * 1024), MaxPacketSize::max());
}

#[test]
fn errors_are_named() {
    let named = [
        (NetworkError::Encode(EncodeError(())), "encode"),
        (NetworkError::Decode(DecodeError(())), "decode"),
        (NetworkError::NotConnected, "not connected"),
        (NetworkError::TransportConnect(()), "transport connect"),
        (NetworkError::TransportSend(()), "transport send"),
        (NetworkError::TransportReceive(()), "transport receive"),
        (NetworkError::Io(()), "io"),
        (NetworkError::Other, "other"),
    ];
    for (error, name) in named {
        assert_eq!(error.label(), name);
    }
    assert!(matches!(NetworkError::from(EncodeError(1)), NetworkError::Encode(EncodeError(1))));
    assert!(matches!(NetworkError::from(DecodeError(2)), NetworkError::Decode(DecodeError(2))));
}

struct Move;

impl NetworkMessage for Move {
    const CHANNEL_ID: u8 = 3;
    const CHANNEL_CONFIG: ChannelConfig = ChannelConfig { reliable: false, ordered: true };
}

struct Chat;

impl NetworkMessage for Chat {
    const CHANNEL_ID: u8 = 4;
    const CHANNEL_CONFIG: ChannelConfig = ChannelConfig { reliable: true, ordered: true };
}

type Decode = fn(&[u8]) -> Result<u8, DecodeError<&'static str>>;

fn first_byte(buf: &[u8]) -> Result<u8, DecodeError<&'static str>> {
    buf.first().copied().ok_or(DecodeError("empty"))
}

fn channels() -> Channels<Decode> {
    let mut channels: Channels<Decode> = Channels::new();
    channels
        .add_send::<Chat>(TypeId::of::<Chat>(), "Chat")
        .add_recv::<Move>(TypeId::of::<Move>(), "Move", first_byte)
        .add_recv::<Chat>(TypeId::of::<Chat>(), "Chat", first_byte);
    channels
}

#[test]
fn channels_are_found_by_number() {
    let channels = channels();
    assert_eq!(channels.send_ids(), vec![4]);
    let mut recv_ids = channels.recv_ids();
    recv_ids.sort();
    assert_eq!(recv_ids, vec![3, 4]);
    assert_eq!(channels.send_channel(4).unwrap().ty_name, "Chat");
    assert!(channels.send_channel(3).is_none());
    let (channel, _) = channels.recv_channel(3).unwrap();
    assert_eq!(channel.id, ChannelId::new(3));
    assert_eq!(channel.ty_name, "Move");
    assert!(channel.config.ordered && !channel.config.reliable);
    assert_eq!(channels.send_channel_id::<Chat>(), ChannelId::new(4));
    assert!(channels.is_reliable(ChannelId::new(4)));
    assert!(!channels.is_reliable(ChannelId::new(3)));
    assert!(!channels.is_reliable(ChannelId::new(5)));
    assert!(channel.is_for(&TypeId::of::<Move>()));
    assert!(!channel.is_for(&TypeId::of::<Chat>()));
    assert!(Channels::<Decode>::default().send_ids().is_empty());
}

#[test]
fn messages_are_received_in_order_on_their_channel() {
    let mut connection = ConnectionState::new(stream::properties(), &channels());
    let mut new_data = NewDataAvailable::new();
    let (moves, chat) = (ChannelId::new(3), ChannelId::new(4));
    assert_eq!(connection.decode_recv(&mut new_data, moves, &[1]).unwrap().ok(), Some(()));
    assert_eq!(connection.decode_recv(&mut new_data, chat, &[9]).unwrap().ok(), Some(()));
    assert_eq!(connection.decode_recv(&mut new_data, moves, &[2, 7]).unwrap().ok(), Some(()));
    assert!(new_data.wait_timeout());
    assert_eq!(connection.receive(3), Some(1));
    assert_eq!(connection.receive(3), Some(2));
    assert_eq!(connection.receive(3), None);
    assert_eq!(connection.receive(4), Some(9));
    assert_eq!(connection.receive(4), None);
}

struct Shout;

impl NetworkMessage for Shout {
    const CHANNEL_ID: u8 = 4;
    const CHANNEL_CONFIG: ChannelConfig = ChannelConfig { reliable: true, ordered: true };
}

struct Whisper;

impl NetworkMessage for Whisper {
    const CHANNEL_ID: u8 = 9;
    const CHANNEL_CONFIG: ChannelConfig = ChannelConfig { reliable: true, ordered: true };
}

#[test]
fn messages_are_received_as_their_type_alone() {
    let mut connection = ConnectionState::new(stream::properties(), &channels());
    let mut new_data = NewDataAvailable::new();
    connection.decode_recv(&mut new_data, ChannelId::new(4), &[7]);
    connection.decode_recv(&mut new_data, ChannelId::new(4), &[8]);
    assert!(matches!(
        connection.get_receiver::<Whisper>(TypeId::of::<Whisper>()),
        Err(ReceiveError::NoChannel)
    ));
    assert!(matches!(
        connection.receive_as::<Shout>(TypeId::of::<Shout>()),
        Err(ReceiveError::OtherType("Chat"))
    ));
    assert!(connection.get_receiver::<Move>(TypeId::of::<Move>()).unwrap().is_empty());
    assert_eq!(connection.get_receiver::<Chat>(TypeId::of::<Chat>()).unwrap().len(), 2);
    assert!(matches!(connection.receive_as::<Chat>(TypeId::of::<Chat>()), Ok(Some(7))));
    assert!(matches!(connection.receive_as::<Chat>(TypeId::of::<Chat>()), Ok(Some(8))));
    assert!(matches!(connection.receive_as::<Chat>(TypeId::of::<Chat>()), Ok(None)));
}

#[test]
fn all_messages_are_received_with_where_they_came_from() {
    let mut connection = ConnectionState::new(stream::properties(), &channels());
    let mut new_data = NewDataAvailable::new();
    for byte in [5, 6, 7] {
        connection.decode_recv(&mut new_data, ChannelId::new(3), &[byte]);
    }
    connection.decode_recv(&mut new_data, ChannelId::new(4), &[9]);
    let from = handle(1, 2);
    assert_eq!(connection.receive_all(3, from), vec![(5, from), (6, from), (7, from)]);
    assert!(connection.receive_all(3, from).is_empty());
    assert_eq!(connection.receive(4), Some(9));
}

#[test]
fn what_cannot_be_decoded_does_not_wait() {
    let mut connection = ConnectionState::new(udp::properties(), &channels());
    let mut new_data = NewDataAvailable::new();
    let outcome = connection.decode_recv(&mut new_data, ChannelId::new(3), &[]);
    assert!(matches!(outcome, Some(Err(DecodeError("empty")))));
    assert!(!new_data.wait_timeout());
    assert_eq!(connection.receive(3), None);
    assert!(connection.decode_recv(&mut new_data, ChannelId::new(5), &[1]).is_none());
    assert!(!new_data.wait_timeout());
    assert!(!connection.transport_properties().is_reliable);
    assert_eq!(connection.recv_channel(4).unwrap().ty_name, "Chat");
    assert!(connection.recv_channel(5).is_none());
}
