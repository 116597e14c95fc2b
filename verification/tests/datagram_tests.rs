use raknet::acks::AckRange;
use raknet::datagram::{
    handle_ack, handle_datagram, handle_nack, handle_type, read_frames, DatagramKind, Inbound,
};
use raknet::error::ProtoError;
use raknet::messages::unconnected_ping::UnconnectedPing;
use raknet::packet::{Packet, Reliability};
use raknet::types::Packet as Message;
use raknet::{PacketT, ReceivePacket};

fn frame(reliability: Reliability, index: u32, data: Vec<u8>) -> Packet {
    let mut packet = Packet::new();
    packet.reliability = reliability;
    if packet.reliable() {
        packet.message_index = index;
    }
    if packet.sequenced() {
        packet.sequence_index = index;
    }
    if packet.sequenced_or_ordered() {
        packet.order_index = index;
    }
    packet.data = data;
    packet
}

#[test]
fn kinds_by_first_byte() {
    assert_eq!(handle_type(&[]), Err(ProtoError::ShortPayload));
    assert_eq!(handle_type(&[0xc0]), Ok(DatagramKind::Ack));
    assert_eq!(handle_type(&[0x40]), Ok(DatagramKind::Ack));
    assert_eq!(handle_type(&[0xe0]), Ok(DatagramKind::Ack));
    assert_eq!(handle_type(&[0xa0]), Ok(DatagramKind::Nack));
    assert_eq!(handle_type(&[0x20]), Ok(DatagramKind::Nack));
    assert_eq!(handle_type(&[0x80]), Ok(DatagramKind::Datagram));
    assert_eq!(handle_type(&[0x84, 1]), Ok(DatagramKind::Datagram));
    assert_eq!(handle_type(&[0x8c]), Ok(DatagramKind::Datagram));
    for id in [0x00u8, 0x01, 0x03, 0x05, 0x06, 0x07, 0x08, 0x09, 0x10, 0x13, 0x15, 0x19, 0x1c] {
        assert_eq!(handle_type(&[id]), Ok(DatagramKind::Unconnected));
    }
}

#[test]
fn frames_are_read_until_the_bytes_run_out() {
    let frames = vec![
        frame(Reliability::Unreliable, 0, vec![1]),
        frame(Reliability::ReliableOrdered, 5, vec![2, 3]),
        frame(Reliability::ReliableSequenced, 6, vec![]),
    ];
    let mut bytes = Vec::new();
    for f in &frames {
        f.write(&mut bytes);
    }
    assert_eq!(read_frames(&bytes), Ok(frames));
    assert_eq!(read_frames(&[]), Ok(vec![]));
    bytes.push(0x00);
    assert_eq!(read_frames(&bytes), Err(ProtoError::ShortPayload));
}

#[test]
fn a_datagram_is_its_number_and_its_frames() {
    let f = frame(Reliability::ReliableOrdered, 0, vec![0xfe, 1, 2, 3, 4]);
    let mut bytes = vec![0x80, 0x07, 0x00, 0x00];
    f.write(&mut bytes);
    assert_eq!(handle_datagram(&bytes), Ok((7, vec![f.clone()])));
    assert_eq!(ReceivePacket(&bytes), Ok(Inbound::Datagram(7, vec![f])));
    assert_eq!(handle_datagram(&[0x80, 1, 2]), Err(ProtoError::ShortPayload));
    assert_eq!(handle_datagram(&[0x80, 1, 2, 3]), Ok((0x030201, vec![])));
    assert_eq!(handle_datagram(&[0x80, 0, 0, 0, 0xe0, 0, 0]), Err(ProtoError::BadReliability));
}

#[test]
fn acknowledgements_are_their_ranges() {
    let bytes = [0xc0, 0, 2, 1, 4, 0, 0, 0, 6, 0, 0, 9, 0, 0];
    let ranges = vec![AckRange { start: 4, end: 4 }, AckRange { start: 6, end: 9 }];
    assert_eq!(handle_ack(&bytes), Ok(ranges.clone()));
    assert_eq!(handle_nack(&bytes), Ok(ranges.clone()));
    assert_eq!(ReceivePacket(&bytes), Ok(Inbound::Ack(ranges.clone())));
    let mut nack = bytes;
    nack[0] = 0xa0;
    assert_eq!(ReceivePacket(&nack), Ok(Inbound::Nack(ranges)));
}

#[test]
fn anything_else_is_a_control_message() {
    let ping = UnconnectedPing { client_send_time_be: 1, client_guid_be: 2 };
    assert_eq!(
        ReceivePacket(&ping.serialize()),
        Ok(Inbound::Message(PacketT::UnconnectedPing(ping)))
    );
    assert_eq!(ReceivePacket(&[]), Err(ProtoError::ShortPayload));
    assert_eq!(ReceivePacket(&[0x01, 2]), Err(ProtoError::ShortPayload));
}
