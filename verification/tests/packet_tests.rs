use raknet::error::ProtoError;
use raknet::packet::{
    read, reassemble, split_packet, Packet, PacketBitFlags, Reliability,
};

fn frame(reliability: Reliability, data: Vec<u8>) -> Packet {
    let mut packet = Packet::new();
    packet.reliability = reliability;
    packet.data = data;
    packet
}

#[test]
fn reliability_codes() {
    assert_eq!(Reliability::Unreliable.to_u8(), 0);
    assert_eq!(Reliability::UnreliableSequenced.to_u8(), 1);
    assert_eq!(Reliability::Reliable.to_u8(), 2);
    assert_eq!(Reliability::ReliableOrdered.to_u8(), 3);
    assert_eq!(Reliability::ReliableSequenced.to_u8(), 4);
    for code in 0u8..=4 {
        assert_eq!(Reliability::from_u8(code).unwrap().to_u8(), code);
    }
    assert_eq!(Reliability::from_u8(5), None);
    assert_eq!(Reliability::from_u8(255), None);
}

#[test]
fn flag_bits() {
    assert_eq!(PacketBitFlags::Datagram.bits(), 0x80);
    assert_eq!(PacketBitFlags::ACK.bits(), 0x40);
    assert_eq!(PacketBitFlags::NACK.bits(), 0x20);
    assert_eq!(PacketBitFlags::NeedsBAndAS.bits(), 0x04);
}

#[test]
fn which_classes_carry_which_index() {
    let classes = [
        (Reliability::Unreliable, false, false, false),
        (Reliability::UnreliableSequenced, false, true, true),
        (Reliability::Reliable, true, false, false),
        (Reliability::ReliableOrdered, true, false, true),
        (Reliability::ReliableSequenced, true, true, true),
    ];
    for (class, reliable, sequenced, ordered) in classes {
        let packet = frame(class, vec![]);
        assert_eq!(packet.reliable(), reliable);
        assert_eq!(packet.sequenced(), sequenced);
        assert_eq!(packet.sequenced_or_ordered(), ordered);
    }
}

#[test]
fn reliable_ordered_frame_layout() {
    let mut packet = frame(Reliability::ReliableOrdered, vec![0xfe, 1, 2, 3, 4]);
    packet.message_index = 0;
    packet.order_index = 0;
    let bytes = packet.serialize();
    assert_eq!(
        bytes,
        vec![0x60, 0x00, 0x28, 0, 0, 0, 0, 0, 0, 0x00, 0xfe, 1, 2, 3, 4]
    );
    assert_eq!(packet.size(), 15);
    assert_eq!(read(&bytes).unwrap(), packet);
}

#[test]
fn header_holds_class_and_split_bit() {
    assert_eq!(frame(Reliability::Unreliable, vec![]).serialize()[0], 0x00);
    assert_eq!(frame(Reliability::UnreliableSequenced, vec![]).serialize()[0], 0x20);
    assert_eq!(frame(Reliability::Reliable, vec![]).serialize()[0], 0x40);
    assert_eq!(frame(Reliability::ReliableOrdered, vec![]).serialize()[0], 0x60);
    assert_eq!(frame(Reliability::ReliableSequenced, vec![]).serialize()[0], 0x80);
    let mut split = frame(Reliability::Reliable, vec![1]);
    split.split = true;
    split.split_count = 2;
    assert_eq!(split.serialize()[0], 0x50);
}

#[test]
fn bit_length_is_eight_times_the_payload() {
    let bytes = frame(Reliability::Unreliable, vec![7; 300]).serialize();
    assert_eq!(&bytes[1..3], &[0x09, 0x60]);
    assert_eq!(bytes.len(), 303);
}

#[test]
fn split_frame_layout() {
    let mut packet = frame(Reliability::ReliableSequenced, vec![0xaa, 0xbb]);
    packet.message_index = 0x010203;
    packet.sequence_index = 0x040506;
    packet.order_index = 0x070809;
    packet.split = true;
    packet.split_count = 0x0a0b0c0d;
    packet.split_id = 0x0e0f;
    packet.split_index = 0x10111213;
    let bytes = packet.serialize();
    assert_eq!(
        bytes,
        vec![
            0x90, 0x00, 0x10, 0x03, 0x02, 0x01, 0x06, 0x05, 0x04, 0x09, 0x08, 0x07, 0x00, 0x0a,
            0x0b, 0x0c, 0x0d, 0x0e, 0x0f, 0x10, 0x11, 0x12, 0x13, 0xaa, 0xbb
        ]
    );
    assert_eq!(packet.size(), bytes.len());
    assert_eq!(read(&bytes).unwrap(), packet);
}

#[test]
fn frame_round_trip_for_every_class() {
    for code in 0u8..=4 {
        for split in [false, true] {
            let class = Reliability::from_u8(code).unwrap();
            let mut packet = frame(class, (0..200u16).map(|x| x as u8).collect());
            if packet.reliable() {
                packet.message_index = 0xff_ffff;
            }
            if packet.sequenced() {
                packet.sequence_index = 77;
            }
            if packet.sequenced_or_ordered() {
                packet.order_index = 0x80_0000;
            }
            if split {
                packet.split = true;
                packet.split_count = 3;
                packet.split_id = 65535;
                packet.split_index = 2;
            }
            let bytes = packet.serialize();
            assert_eq!(bytes.len(), packet.size());
            assert_eq!(read(&bytes).unwrap(), packet);
            let mut followed = bytes.clone();
            followed.extend_from_slice(&[1, 2, 3]);
            assert_eq!(read(&followed).unwrap(), packet);
        }
    }
}

#[test]
fn empty_and_largest_payload_round_trip() {
    let empty = frame(Reliability::Unreliable, vec![]);
    assert_eq!(empty.serialize(), vec![0, 0, 0]);
    assert_eq!(read(&empty.serialize()).unwrap(), empty);
    let largest = frame(Reliability::Reliable, vec![0x5a; 8191]);
    let bytes = largest.serialize();
    assert_eq!(&bytes[1..3], &[0xff, 0xf8]);
    assert_eq!(read(&bytes).unwrap(), largest);
}

#[test]
fn bit_length_is_divided_by_eight() {
    let parsed = read(&[0x00, 0x00, 0x0f, 0xab, 0xcd]).unwrap();
    assert_eq!(parsed.data, vec![0xab]);
}

#[test]
fn unknown_class_is_refused() {
    assert_eq!(read(&[0xa0, 0, 0]), Err(ProtoError::BadReliability));
    assert_eq!(read(&[0xe0, 0, 8, 1]), Err(ProtoError::BadReliability));
    assert_eq!(read(&[0xc0, 0, 0, 0, 0, 0]), Err(ProtoError::BadReliability));
}

#[test]
fn short_frames_are_refused() {
    assert_eq!(read(&[]), Err(ProtoError::ShortPayload));
    assert_eq!(read(&[0x00, 0x00]), Err(ProtoError::ShortPayload));
    assert_eq!(read(&[0x00, 0x00, 0x10, 1]), Err(ProtoError::ShortPayload));
    assert_eq!(read(&[0x40, 0x00, 0x00, 1, 2]), Err(ProtoError::ShortPayload));
    assert_eq!(read(&[0x20, 0, 0, 1, 2, 3, 4, 5, 6]), Err(ProtoError::ShortPayload));
    assert_eq!(read(&[0x60, 0, 0, 1, 2, 3, 4, 5, 6]), Err(ProtoError::ShortPayload));
    assert_eq!(read(&[0x10, 0, 0, 1, 2, 3, 4, 5, 6, 7, 8, 9]), Err(ProtoError::ShortPayload));
    let mut whole = frame(Reliability::ReliableOrdered, vec![1, 2, 3]).serialize();
    whole.pop();
    assert_eq!(read(&whole), Err(ProtoError::ShortPayload));
}

#[test]
fn split_of_four_thousand_bytes() {
    let payload: Vec<u8> = (0..4000u32).map(|x| (x % 251) as u8).collect();
    let fragments = split_packet(&payload, 1500);
    assert_eq!(fragments.len(), 3);
    assert_eq!(fragments[0].len(), 1477);
    assert_eq!(fragments[1].len(), 1477);
    assert_eq!(fragments[2].len(), 4000 - 2 * 1477);
    assert_eq!(reassemble(&fragments), payload);
}

#[test]
fn split_keeps_a_fitting_payload_whole() {
    let payload = vec![3u8; 1487];
    let fragments = split_packet(&payload, 1500);
    assert_eq!(fragments, vec![payload.clone()]);
    let one_more = vec![3u8; 1488];
    let fragments = split_packet(&one_more, 1500);
    assert_eq!(fragments.len(), 2);
    assert_eq!(fragments[0].len(), 1477);
    assert_eq!(fragments[1].len(), 11);
}

#[test]
fn split_count_is_rounded_up() {
    for (len, mtu, count) in [
        (1usize, 24u16, 1usize),
        (11, 24, 1),
        (12, 24, 12),
        (100, 24, 100),
        (2954, 1500, 2),
        (2955, 1500, 3),
        (1469 * 5, 1492, 5),
        (1469 * 5 + 1, 1492, 6),
        (576, 576, 2),
    ] {
        let payload: Vec<u8> = (0..len).map(|x| (x * 7) as u8).collect();
        let fragments = split_packet(&payload, mtu);
        assert_eq!(fragments.len(), count, "len {} mtu {}", len, mtu);
        let expected = if len > mtu as usize - 13 {
            (len + (mtu as usize - 23) - 1) / (mtu as usize - 23)
        } else {
            1
        };
        assert_eq!(fragments.len(), expected);
        assert_eq!(reassemble(&fragments), payload);
    }
}

#[test]
fn split_of_nothing_is_nothing() {
    let fragments = split_packet(&[], 1492);
    assert!(fragments.is_empty());
    assert_eq!(reassemble(&fragments), Vec::<u8>::new());
}

#[test]
fn reassemble_joins_in_order() {
    let parts = vec![vec![1, 2], vec![], vec![3], vec![4, 5, 6]];
    assert_eq!(reassemble(&parts), vec![1, 2, 3, 4, 5, 6]);
}
