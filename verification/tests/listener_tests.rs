use raknet::address::Address;
use raknet::error::ProtoError;
use raknet::listener::{route, Listener, Reply, Route};
use raknet::messages::connected_ping::ConnectedPing;
use raknet::messages::incompatible_protocol_version::IncompatibleProtocolVersion;
use raknet::messages::open_connection_reply_1::OpenConnectionReply1;
use raknet::messages::open_connection_reply_2::OpenConnectionReply2;
use raknet::messages::open_connection_request_1::OpenConnectionRequest1;
use raknet::messages::open_connection_request_2::OpenConnectionRequest2;
use raknet::messages::unconnected_ping::UnconnectedPing;
use raknet::messages::unconnected_pong::UnconnectedPong;
use raknet::types::Packet;
use raknet::PacketT;

fn listener() -> Listener {
    Listener { guid: 0x5e, protocol: 11, max_transmission_unit: 1492, motd: b"MCPE;test;".to_vec() }
}

fn source() -> Address {
    Address::v4([203, 0, 113, 5], 50123)
}

#[test]
fn routes() {
    for first in 0u8..=255 {
        assert_eq!(route(first, true), Route::ToConnection);
        let expected = if first == 0x01 || first == 0x05 || first == 0x07 {
            Route::Stateless
        } else {
            Route::Drop
        };
        assert_eq!(route(first, false), expected);
    }
}

#[test]
fn a_ping_is_answered_with_the_description() {
    let ping = UnconnectedPing { client_send_time_be: 123456789, client_guid_be: 1 };
    let reply = listener().handle(&ping.serialize(), source());
    assert_eq!(
        reply,
        Ok(Reply::Send(PacketT::UnconnectedPong(UnconnectedPong {
            client_send_time_be: 123456789,
            server_guid_be: 0x5e,
            data: b"MCPE;test;".to_vec(),
        })))
    );
}

#[test]
fn the_first_request_is_answered_with_the_probed_unit() {
    let request = OpenConnectionRequest1 { client_protocol: 11, max_transmission_unit: 1492 };
    let bytes = request.serialize();
    assert_eq!(bytes.len(), 1464);
    let reply = listener().handle(&bytes, source()).unwrap();
    let expected = OpenConnectionReply1 { server_guid_be: 0x5e, server_has_security: false, cookie: 0, max_transmission_unit_be: 1492 };
    assert_eq!(reply, Reply::Send(PacketT::OpenConnectionReply1(expected)));
    assert!(expected.max_transmission_unit_be as usize <= bytes.len() + 28);
    let mut wire = vec![0x06];
    wire.extend_from_slice(&raknet::types::UNCONNECTED_MESSAGE_SEQUENCE);
    wire.extend_from_slice(&0x5eu64.to_be_bytes());
    wire.push(0x00);
    wire.extend_from_slice(&1492u16.to_be_bytes());
    assert_eq!(expected.serialize(), wire);
}

#[test]
fn the_first_reply_is_capped_at_the_servers_unit() {
    let mut small = listener();
    small.max_transmission_unit = 1200;
    let request = OpenConnectionRequest1 { client_protocol: 11, max_transmission_unit: 1492 };
    match small.handle(&request.serialize(), source()).unwrap() {
        Reply::Send(PacketT::OpenConnectionReply1(reply)) => assert_eq!(reply.max_transmission_unit_be, 1200),
        other => panic!("unexpected {:?}", other),
    }
    let request = OpenConnectionRequest1 { client_protocol: 11, max_transmission_unit: 576 };
    match small.handle(&request.serialize(), source()).unwrap() {
        Reply::Send(PacketT::OpenConnectionReply1(reply)) => assert_eq!(reply.max_transmission_unit_be, 576),
        other => panic!("unexpected {:?}", other),
    }
}

#[test]
fn another_protocol_version_is_refused() {
    let request = OpenConnectionRequest1 { client_protocol: 10, max_transmission_unit: 1492 };
    assert_eq!(
        listener().handle(&request.serialize(), source()),
        Ok(Reply::Send(PacketT::IncompatibleProtocolVersion(IncompatibleProtocolVersion { server_protocol: 11, server_guid: 0x5e })))
    );
}

#[test]
fn the_second_request_opens_a_connection() {
    let request = OpenConnectionRequest2 { server_address: Address::v4([192, 0, 2, 1], 19132), max_transmission_unit: 1400, client_guid: 7 };
    assert_eq!(
        listener().handle(&request.serialize(), source()),
        Ok(Reply::Accept(
            PacketT::OpenConnectionReply2(OpenConnectionReply2 { server_guid_be: 0x5e, client_address: source(), max_transmission_unit_be: 1400, do_security: false }),
            1400
        ))
    );
}

#[test]
fn the_granted_unit_stays_within_bounds() {
    let l = listener();
    assert_eq!(l.granted(1492), 1492);
    assert_eq!(l.granted(1493), 1492);
    assert_eq!(l.granted(65535), 1492);
    assert_eq!(l.granted(576), 576);
    assert_eq!(l.granted(575), 576);
    assert_eq!(l.granted(0), 576);
    let mut wide = listener();
    wide.max_transmission_unit = 9000;
    assert_eq!(wide.granted(8000), 1492);
    let mut narrow = listener();
    narrow.max_transmission_unit = 100;
    assert_eq!(narrow.granted(1492), 576);
}

#[test]
fn other_datagrams_are_passed_over_or_refused() {
    let l = listener();
    assert_eq!(l.handle(&[], source()), Err(ProtoError::ShortPayload));
    assert_eq!(l.handle(&[0x80, 0, 0, 0], source()), Ok(Reply::Nothing));
    assert_eq!(l.handle(&[0xc0, 0, 0], source()), Ok(Reply::Nothing));
    assert_eq!(l.handle(&ConnectedPing { client_send_time_be: 1 }.serialize(), source()), Ok(Reply::Nothing));
    assert_eq!(l.handle(&[0x01, 1, 2, 3], source()), Err(ProtoError::ShortPayload));
    let mut broken = UnconnectedPing { client_send_time_be: 1, client_guid_be: 2 }.serialize();
    broken[10] ^= 1;
    assert_eq!(l.handle(&broken, source()), Err(ProtoError::BadMagic));
    assert_eq!(l.answer(&PacketT::ConnectedPing(ConnectedPing { client_send_time_be: 1 }), source()), Reply::Nothing);
}
