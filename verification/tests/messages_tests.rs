use raknet::address::Address;
use raknet::error::ProtoError;
use raknet::messages::connected_ping::ConnectedPing;
use raknet::messages::connected_pong::ConnectedPong;
use raknet::messages::connection_request::ConnectionRequest;
use raknet::messages::connection_request_accepted::ConnectionRequestAccepted;
use raknet::messages::disconnect_notification::DisconnectNotification;
use raknet::messages::incompatible_protocol_version::IncompatibleProtocolVersion;
use raknet::messages::new_incoming_connection::NewIncomingConnection;
use raknet::messages::open_connection_reply_1::OpenConnectionReply1;
use raknet::messages::open_connection_reply_2::OpenConnectionReply2;
use raknet::messages::open_connection_request_1::OpenConnectionRequest1;
use raknet::messages::open_connection_request_2::OpenConnectionRequest2;
use raknet::messages::unconnected_ping::UnconnectedPing;
use raknet::messages::unconnected_pong::UnconnectedPong;
use raknet::messages::unknown::UnknownPacket;
use raknet::types::{Packet, UNCONNECTED_MESSAGE_SEQUENCE};
use raknet::{PacketT, ReadPacket};

const MAGIC: [u8; 16] = UNCONNECTED_MESSAGE_SEQUENCE;

fn with_broken_magic(bytes: &[u8], at: usize) -> Vec<u8> {
    let mut broken = bytes.to_vec();
    broken[at + 7] ^= 0x80;
    broken
}

#[test]
fn unconnected_ping_layout() {
    let ping = UnconnectedPing { client_send_time_be: 0x0102030405060708, client_guid_be: 0x1112131415161718 };
    let mut expected = vec![0x01, 1, 2, 3, 4, 5, 6, 7, 8];
    expected.extend_from_slice(&MAGIC);
    expected.extend_from_slice(&[0x11, 0x12, 0x13, 0x14, 0x15, 0x16, 0x17, 0x18]);
    assert_eq!(ping.serialize(), expected);
    assert_eq!(UnconnectedPing::deserialize(&expected[1..]), Ok(ping));
    assert_eq!(ReadPacket(&expected), Ok(PacketT::UnconnectedPing(ping)));
}

#[test]
fn unconnected_ping_errors() {
    let bytes = UnconnectedPing { client_send_time_be: 1, client_guid_be: 2 }.serialize();
    assert_eq!(UnconnectedPing::deserialize(&bytes[1..32]), Err(ProtoError::ShortPayload));
    assert_eq!(UnconnectedPing::deserialize(&[]), Err(ProtoError::ShortPayload));
    assert_eq!(
        UnconnectedPing::deserialize(&with_broken_magic(&bytes[1..], 8)),
        Err(ProtoError::BadMagic)
    );
}

#[test]
fn ping_is_answered_with_its_own_time() {
    let time: u64 = 1_700_000_000_123;
    let guid: u64 = 0xdead_beef_0bad_cafe;
    let server_guid: u64 = 0x0123_4567_89ab_cdef;
    let motd = b"MCPE;Dedicated Server;786;1.21.73;0;10;11954621141260796043;Bedrock level;Survival;1;19132;19133;0;".to_vec();
    let mut datagram = vec![0x01];
    datagram.extend_from_slice(&time.to_be_bytes());
    datagram.extend_from_slice(&MAGIC);
    datagram.extend_from_slice(&guid.to_be_bytes());
    let ping = match ReadPacket(&datagram) {
        Ok(PacketT::UnconnectedPing(ping)) => ping,
        other => panic!("not a ping: {:?}", other),
    };
    assert_eq!(ping.client_send_time_be, time);
    assert_eq!(ping.client_guid_be, guid);
    let pong = UnconnectedPong { client_send_time_be: ping.client_send_time_be, server_guid_be: server_guid, data: motd.clone() };
    let mut expected = vec![0x1c];
    expected.extend_from_slice(&time.to_be_bytes());
    expected.extend_from_slice(&server_guid.to_be_bytes());
    expected.extend_from_slice(&MAGIC);
    expected.extend_from_slice(&(motd.len() as u16).to_be_bytes());
    expected.extend_from_slice(&motd);
    assert_eq!(pong.serialize(), expected);
    assert_eq!(ReadPacket(&expected), Ok(PacketT::UnconnectedPong(pong)));
}

#[test]
fn unconnected_pong_errors_and_edges() {
    let pong = UnconnectedPong { client_send_time_be: 5, server_guid_be: 6, data: vec![b'a', b'b', b'c'] };
    let bytes = pong.serialize();
    assert_eq!(bytes.len(), 1 + 34 + 3);
    assert_eq!(UnconnectedPong::deserialize(&bytes[1..34]), Err(ProtoError::ShortPayload));
    assert_eq!(UnconnectedPong::deserialize(&bytes[1..37]), Err(ProtoError::ShortPayload));
    assert_eq!(UnconnectedPong::deserialize(&with_broken_magic(&bytes[1..], 16)), Err(ProtoError::BadMagic));
    let mut followed = bytes[1..].to_vec();
    followed.extend_from_slice(&[9, 9]);
    assert_eq!(UnconnectedPong::deserialize(&followed), Ok(pong));
    let empty = UnconnectedPong { client_send_time_be: 0, server_guid_be: 0, data: vec![] };
    assert_eq!(UnconnectedPong::deserialize(&empty.serialize()[1..]), Ok(empty));
    let largest = UnconnectedPong { client_send_time_be: 1, server_guid_be: 2, data: vec![7; 65535] };
    assert_eq!(UnconnectedPong::deserialize(&largest.serialize()[1..]), Ok(largest));
}

#[test]
fn first_request_is_padded_to_the_probed_unit() {
    let request = OpenConnectionRequest1 { client_protocol: 11, max_transmission_unit: 1492 };
    let bytes = request.serialize();
    assert_eq!(bytes.len(), 1492 - 28);
    assert_eq!(bytes[0], 0x05);
    assert_eq!(&bytes[1..17], &MAGIC[..]);
    assert_eq!(bytes[17], 0x0b);
    assert!(bytes[18..].iter().all(|b| *b == 0));
    assert_eq!(bytes.len() - 18, 1492 - 20 - 8 - 1 - 16 - 1);
    assert_eq!(ReadPacket(&bytes), Ok(PacketT::OpenConnectionRequest1(request)));
}

#[test]
fn first_request_round_trip_and_errors() {
    for mtu in [46u16, 47, 576, 1200, 1492, 65535] {
        let request = OpenConnectionRequest1 { client_protocol: 10, max_transmission_unit: mtu };
        let bytes = request.serialize();
        assert_eq!(bytes.len(), mtu as usize - 28);
        assert_eq!(OpenConnectionRequest1::deserialize(&bytes[1..]), Ok(request));
    }
    let bytes = OpenConnectionRequest1 { client_protocol: 11, max_transmission_unit: 576 }.serialize();
    assert_eq!(OpenConnectionRequest1::deserialize(&bytes[1..17]), Err(ProtoError::ShortPayload));
    assert_eq!(
        OpenConnectionRequest1::deserialize(&with_broken_magic(&bytes[1..], 0)),
        Err(ProtoError::BadMagic)
    );
}

#[test]
fn first_reply_layout() {
    let reply = OpenConnectionReply1 { server_guid_be: 0x0102030405060708, server_has_security: false, cookie: 0, max_transmission_unit_be: 1492 };
    let mut expected = vec![0x06];
    expected.extend_from_slice(&MAGIC);
    expected.extend_from_slice(&[1, 2, 3, 4, 5, 6, 7, 8]);
    expected.push(0x00);
    expected.extend_from_slice(&[0x05, 0xd4]);
    assert_eq!(reply.serialize(), expected);
    assert_eq!(ReadPacket(&expected), Ok(PacketT::OpenConnectionReply1(reply)));
}

#[test]
fn first_reply_with_cookie() {
    let reply = OpenConnectionReply1 { server_guid_be: 9, server_has_security: true, cookie: 0xa1b2c3d4, max_transmission_unit_be: 576 };
    let bytes = reply.serialize();
    assert_eq!(bytes.len(), 1 + 16 + 8 + 1 + 4 + 2);
    assert_eq!(bytes[25], 1);
    assert_eq!(&bytes[26..30], &[0xa1, 0xb2, 0xc3, 0xd4]);
    assert_eq!(&bytes[30..32], &[0x02, 0x40]);
    assert_eq!(OpenConnectionReply1::deserialize(&bytes[1..]), Ok(reply));
    assert_eq!(OpenConnectionReply1::deserialize(&bytes[1..31]), Err(ProtoError::ShortPayload));
    assert_eq!(OpenConnectionReply1::deserialize(&bytes[1..27]), Err(ProtoError::ShortPayload));
    assert_eq!(
        OpenConnectionReply1::deserialize(&with_broken_magic(&bytes[1..], 0)),
        Err(ProtoError::BadMagic)
    );
}

#[test]
fn second_request_round_trip_and_errors() {
    let request = OpenConnectionRequest2 { server_address: Address::v4([10, 0, 0, 1], 19132), max_transmission_unit: 1200, client_guid: 0x1122334455667788 };
    let bytes = request.serialize();
    let mut expected = vec![0x07];
    expected.extend_from_slice(&MAGIC);
    expected.extend_from_slice(&[4, 245, 255, 255, 254, 0x4a, 0xbc]);
    expected.extend_from_slice(&[0x04, 0xb0]);
    expected.extend_from_slice(&[0x11, 0x22, 0x33, 0x44, 0x55, 0x66, 0x77, 0x88]);
    assert_eq!(bytes, expected);
    assert_eq!(ReadPacket(&bytes), Ok(PacketT::OpenConnectionRequest2(request)));
    assert_eq!(OpenConnectionRequest2::deserialize(&bytes[1..bytes.len() - 1]), Err(ProtoError::ShortPayload));
    assert_eq!(OpenConnectionRequest2::deserialize(&bytes[1..10]), Err(ProtoError::ShortPayload));
    assert_eq!(
        OpenConnectionRequest2::deserialize(&with_broken_magic(&bytes[1..], 0)),
        Err(ProtoError::BadMagic)
    );
    let six = OpenConnectionRequest2 { server_address: Address::v6([3; 16], 1), max_transmission_unit: 576, client_guid: 1 };
    assert_eq!(six.serialize().len(), 1 + 16 + 29 + 2 + 8);
    assert_eq!(OpenConnectionRequest2::deserialize(&six.serialize()[1..]), Ok(six));
}

#[test]
fn second_request_with_unknown_address_family() {
    let mut bytes = Vec::new();
    bytes.extend_from_slice(&MAGIC);
    bytes.push(9);
    bytes.extend_from_slice(&[0u8; 28 + 10]);
    assert_eq!(OpenConnectionRequest2::deserialize(&bytes), Err(ProtoError::BadAddressFamily));
}

#[test]
fn second_reply_round_trip_and_errors() {
    let reply = OpenConnectionReply2 { server_guid_be: 77, client_address: Address::v4([203, 0, 113, 9], 54321), max_transmission_unit_be: 1492, do_security: false };
    let bytes = reply.serialize();
    assert_eq!(bytes.len(), 1 + 16 + 8 + 7 + 2 + 1);
    assert_eq!(bytes[0], 0x08);
    assert_eq!(&bytes[25..32], &[4, !203u8, !0u8, !113u8, !9u8, 0xd4, 0x31]);
    assert_eq!(&bytes[32..34], &[0x05, 0xd4]);
    assert_eq!(bytes[34], 0);
    assert_eq!(ReadPacket(&bytes), Ok(PacketT::OpenConnectionReply2(reply)));
    let secure = OpenConnectionReply2 { do_security: true, ..reply };
    assert_eq!(OpenConnectionReply2::deserialize(&secure.serialize()[1..]), Ok(secure));
    assert_eq!(OpenConnectionReply2::deserialize(&bytes[1..bytes.len() - 1]), Err(ProtoError::ShortPayload));
    assert_eq!(OpenConnectionReply2::deserialize(&bytes[1..20]), Err(ProtoError::ShortPayload));
    assert_eq!(
        OpenConnectionReply2::deserialize(&with_broken_magic(&bytes[1..], 0)),
        Err(ProtoError::BadMagic)
    );
}

#[test]
fn connected_ping_and_pong() {
    let ping = ConnectedPing { client_send_time_be: 0x0a0b0c0d0e0f1011 };
    assert_eq!(ping.serialize(), vec![0x00, 0x0a, 0x0b, 0x0c, 0x0d, 0x0e, 0x0f, 0x10, 0x11]);
    assert_eq!(ReadPacket(&ping.serialize()), Ok(PacketT::ConnectedPing(ping)));
    assert_eq!(ConnectedPing::deserialize(&[1, 2, 3, 4, 5, 6, 7]), Err(ProtoError::ShortPayload));
    let pong = ConnectedPong { client_send_time_be: 3 };
    assert_eq!(pong.serialize(), vec![0x03, 0, 0, 0, 0, 0, 0, 0, 3]);
    assert_eq!(ReadPacket(&pong.serialize()), Ok(PacketT::ConnectedPong(pong)));
    assert_eq!(ConnectedPong::deserialize(&[]), Err(ProtoError::ShortPayload));
}

#[test]
fn connection_request_round_trip() {
    let request = ConnectionRequest { client_guid: 0x0102030405060708, request_time: 0x1112131415161718, use_security: true };
    let bytes = request.serialize();
    assert_eq!(
        bytes,
        vec![0x09, 1, 2, 3, 4, 5, 6, 7, 8, 0x11, 0x12, 0x13, 0x14, 0x15, 0x16, 0x17, 0x18, 1]
    );
    assert_eq!(ReadPacket(&bytes), Ok(PacketT::ConnectionRequest(request)));
    assert_eq!(ConnectionRequest::deserialize(&bytes[1..17]), Err(ProtoError::ShortPayload));
}

#[test]
fn connection_request_accepted_round_trip() {
    let accepted = ConnectionRequestAccepted { client_address: Address::v4([1, 2, 3, 4], 5), system_index: 0x0607, request_time: 8, accepted_time: 9 };
    let bytes = accepted.serialize();
    assert_eq!(bytes.len(), 1 + 7 + 2 + 10 * 7 + 16);
    assert_eq!(bytes[0], 0x10);
    assert_eq!(&bytes[8..10], &[6, 7]);
    assert_eq!(&bytes[10..17], &[4, 255, 255, 255, 255, 0, 0]);
    assert_eq!(&bytes[bytes.len() - 16..bytes.len() - 8], &8u64.to_be_bytes());
    assert_eq!(&bytes[bytes.len() - 8..], &9u64.to_be_bytes());
    assert_eq!(ReadPacket(&bytes), Ok(PacketT::ConnectionRequestAccepted(accepted)));
    assert_eq!(ConnectionRequestAccepted::deserialize(&bytes[1..25]), Err(ProtoError::ShortPayload));
    assert_eq!(ConnectionRequestAccepted::deserialize(&[9; 60]), Err(ProtoError::BadAddressFamily));
}

#[test]
fn new_incoming_connection_round_trip() {
    let confirmation = NewIncomingConnection { server_address: Address::v6([9; 16], 19132), request_time: 1, accepted_time: 2 };
    let bytes = confirmation.serialize();
    assert_eq!(bytes.len(), 1 + 29 + 10 * 7 + 16);
    assert_eq!(bytes[0], 0x13);
    assert_eq!(ReadPacket(&bytes), Ok(PacketT::NewIncomingConnection(confirmation)));
    assert_eq!(NewIncomingConnection::deserialize(&bytes[1..40]), Err(ProtoError::ShortPayload));
}

#[test]
fn disconnect_notification_is_one_byte() {
    let notice = DisconnectNotification {};
    assert_eq!(notice.serialize(), vec![0x15]);
    assert_eq!(ReadPacket(&[0x15]), Ok(PacketT::DisconnectNotification(notice)));
    assert_eq!(ReadPacket(&[0x15, 1, 2]), Ok(PacketT::DisconnectNotification(notice)));
}

#[test]
fn incompatible_protocol_version_round_trip() {
    let refusal = IncompatibleProtocolVersion { server_protocol: 10, server_guid: 0x0102030405060708 };
    let mut expected = vec![0x19, 10];
    expected.extend_from_slice(&MAGIC);
    expected.extend_from_slice(&[1, 2, 3, 4, 5, 6, 7, 8]);
    assert_eq!(refusal.serialize(), expected);
    assert_eq!(ReadPacket(&expected), Ok(PacketT::IncompatibleProtocolVersion(refusal)));
    assert_eq!(IncompatibleProtocolVersion::deserialize(&expected[1..25]), Err(ProtoError::ShortPayload));
    assert_eq!(
        IncompatibleProtocolVersion::deserialize(&with_broken_magic(&expected[1..], 1)),
        Err(ProtoError::BadMagic)
    );
}

#[test]
fn unknown_ids_keep_their_bytes() {
    let bytes = vec![0xfe, 1, 2, 3];
    let expected = UnknownPacket { id: 0xfe, data: vec![1, 2, 3] };
    assert_eq!(ReadPacket(&bytes), Ok(PacketT::Unknown(expected.clone())));
    assert_eq!(expected.serialize(), bytes);
    assert_eq!(ReadPacket(&[0x02]), Ok(PacketT::Unknown(UnknownPacket { id: 2, data: vec![] })));
    assert_eq!(ReadPacket(&[0x84, 0, 0, 0]), Ok(PacketT::Unknown(UnknownPacket { id: 0x84, data: vec![0, 0, 0] })));
    assert_eq!(UnknownPacket::deserialize(&[]), Err(ProtoError::ShortPayload));
}

#[test]
fn an_empty_message_is_refused() {
    assert_eq!(ReadPacket(&[]), Err(ProtoError::ShortPayload));
}

#[test]
fn every_message_serializes_through_the_sum_type() {
    let messages = vec![
        PacketT::ConnectedPing(ConnectedPing { client_send_time_be: 1 }),
        PacketT::ConnectedPong(ConnectedPong { client_send_time_be: 2 }),
        PacketT::UnconnectedPing(UnconnectedPing { client_send_time_be: 3, client_guid_be: 4 }),
        PacketT::UnconnectedPong(UnconnectedPong { client_send_time_be: 5, server_guid_be: 6, data: vec![1, 2] }),
        PacketT::OpenConnectionRequest1(OpenConnectionRequest1 { client_protocol: 11, max_transmission_unit: 576 }),
        PacketT::OpenConnectionRequest2(OpenConnectionRequest2 { server_address: Address::v4([1, 1, 1, 1], 1), max_transmission_unit: 576, client_guid: 7 }),
        PacketT::OpenConnectionReply1(OpenConnectionReply1 { server_guid_be: 8, server_has_security: false, cookie: 0, max_transmission_unit_be: 576 }),
        PacketT::OpenConnectionReply2(OpenConnectionReply2 { server_guid_be: 9, client_address: Address::v4([2, 2, 2, 2], 2), max_transmission_unit_be: 576, do_security: false }),
        PacketT::ConnectionRequest(ConnectionRequest { client_guid: 10, request_time: 11, use_security: false }),
        PacketT::ConnectionRequestAccepted(ConnectionRequestAccepted { client_address: Address::v4([3, 3, 3, 3], 3), system_index: 0, request_time: 12, accepted_time: 13 }),
        PacketT::NewIncomingConnection(NewIncomingConnection { server_address: Address::v4([4, 4, 4, 4], 4), request_time: 14, accepted_time: 15 }),
        PacketT::DisconnectNotification(DisconnectNotification {}),
        PacketT::IncompatibleProtocolVersion(IncompatibleProtocolVersion { server_protocol: 11, server_guid: 16 }),
        PacketT::Unknown(UnknownPacket { id: 0xfe, data: vec![9, 9, 9] }),
    ];
    for message in messages {
        assert_eq!(ReadPacket(&message.serialize()), Ok(message));
    }
}
