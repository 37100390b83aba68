//! The bytes on the wire.

use netty::channel_id::ChannelId;
use netty::handle::ConnectionIdx;
use netty::identity::ConnectionUuid;
use netty::protocol::{
    encode_packet, max_payload_size, payload, InternalC2S, InternalS2C, MAX_CHANNEL_ID,
};
use netty::transport::MaxPacketSize;

fn uuid() -> ConnectionUuid {
    ConnectionUuid::from_bytes(&[1, 2, 3, 4, 5, 6, 7, 8, 9, 10, 11, 12, 13, 14, 15, 16])
}

#[test]
fn server_messages_have_their_bytes() {
    let connect = InternalS2C::Connect(ConnectionIdx(0x04030201), uuid());
    assert_eq!(
        connect.encode().as_slice(),
        &[128, 1, 2, 3, 4, 1, 2, 3, 4, 5, 6, 7, 8, 9, 10, 11, 12, 13, 14, 15, 16]
    );
    assert_eq!(InternalS2C::Disconnect.encode().as_slice(), &[129]);
    assert_eq!(InternalS2C::RequestId.encode().as_slice(), &[130]);
}

#[test]
fn client_messages_have_their_bytes() {
    assert_eq!(InternalC2S::Connect.encode().as_slice(), &[128]);
    assert_eq!(InternalC2S::Disconnect.encode().as_slice(), &[129]);
    let provide = InternalC2S::ProvideId(ConnectionIdx(5), uuid());
    assert_eq!(
        provide.encode().as_slice(),
        &[130, 5, 0, 0, 0, 1, 2, 3, 4, 5, 6, 7, 8, 9, 10, 11, 12, 13, 14, 15, 16]
    );
}

#[test]
fn messages_without_fields_are_read_back() {
    for message in [InternalS2C::Disconnect, InternalS2C::RequestId] {
        assert_eq!(InternalS2C::decode(message.encode().as_slice()), Some(message));
    }
    for message in [InternalC2S::Connect, InternalC2S::Disconnect] {
        assert_eq!(InternalC2S::decode(message.encode().as_slice()), Some(message));
    }
}

#[test]
fn fields_are_read_from_the_start_of_the_packet() {
    let connect = InternalS2C::Connect(ConnectionIdx(0x04030201), uuid());
    assert_eq!(
        InternalS2C::decode(connect.encode().as_slice()),
        Some(InternalS2C::Connect(
            ConnectionIdx(u32::from_le_bytes([128, 1, 2, 3])),
            ConnectionUuid::from_bytes(&[4, 1, 2, 3, 4, 5, 6, 7, 8, 9, 10, 11, 12, 13, 14, 15]),
        ))
    );
    let same = InternalS2C::Connect(
        ConnectionIdx(u32::from_le_bytes([128; 4])),
        ConnectionUuid::from_bytes(&[128; 16]),
    );
    assert_eq!(InternalS2C::decode(same.encode().as_slice()), Some(same));
    let same = InternalC2S::ProvideId(
        ConnectionIdx(u32::from_le_bytes([130; 4])),
        ConnectionUuid::from_bytes(&[130; 16]),
    );
    assert_eq!(InternalC2S::decode(same.encode().as_slice()), Some(same));
}

#[test]
fn other_bytes_are_no_messages() {
    assert_eq!(InternalS2C::decode(&[]), None);
    assert_eq!(InternalS2C::decode(&[127]), None);
    assert_eq!(InternalS2C::decode(&[128]), None);
    assert_eq!(InternalS2C::decode(&[128; 20]), None);
    assert_eq!(InternalS2C::decode(&[129, 0]), None);
    assert_eq!(InternalS2C::decode(&[131]), None);
    assert_eq!(InternalC2S::decode(&[]), None);
    assert_eq!(InternalC2S::decode(&[128, 0]), None);
    assert_eq!(InternalC2S::decode(&[130]), None);
    assert_eq!(InternalC2S::decode(&[130; 22]), None);
}

#[test]
fn packets_carry_the_channel_first() {
    let packet = encode_packet(ChannelId::new(MAX_CHANNEL_ID), &[1, 2, 3]);
    assert_eq!(packet, vec![127, 1, 2, 3]);
    assert_eq!(InternalS2C::decode(&packet), None);
    assert_eq!(InternalC2S::decode(&packet), None);
    assert_eq!(encode_packet(ChannelId::new(0), &[]), vec![0]);
    assert_eq!(payload(&packet), &[1, 2, 3]);
    assert!(payload(&[0]).is_empty());
}

#[test]
fn a_payload_leaves_room_for_its_channel() {
    assert_eq!(max_payload_size(MaxPacketSize::new(256)), 255);
    assert_eq!(max_payload_size(MaxPacketSize::max()), 1048575);
}
