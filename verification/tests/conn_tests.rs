use raknet::acks::{encode_ack, ACK_HEADER, NACK_HEADER};
use raknet::address::Address;
use raknet::conn::{
    probe_mtu, resend_after, Action, Conn, ConnState, Outcome, Role, DISCONNECT_TIMEOUT,
};
use raknet::datagram::handle_datagram;
use raknet::error::ProtoError;
use raknet::messages::connected_ping::ConnectedPing;
use raknet::messages::connected_pong::ConnectedPong;
use raknet::messages::disconnect_notification::DisconnectNotification;
use raknet::messages::incompatible_protocol_version::IncompatibleProtocolVersion;
use raknet::messages::open_connection_reply_1::OpenConnectionReply1;
use raknet::messages::open_connection_reply_2::OpenConnectionReply2;
use raknet::messages::open_connection_request_1::OpenConnectionRequest1;
use raknet::messages::open_connection_request_2::OpenConnectionRequest2;
use raknet::messages::unconnected_ping::UnconnectedPing;
use raknet::messages::unconnected_pong::UnconnectedPong;
use raknet::packet::{Packet, Reliability};
use raknet::receiver::nack_after;
use raknet::types::Packet as Message;
use raknet::{PacketT, ReadPacket};

fn peer() -> Address {
    Address::v4([192, 0, 2, 1], 19132)
}

fn connected(role: Role) -> Conn {
    Conn::new(role, ConnState::Connected, peer(), 1492, 42, 0)
}

fn frame(reliability: Reliability, index: u32, data: Vec<u8>) -> Packet {
    let mut packet = Packet::new();
    packet.reliability = reliability;
    if packet.reliable() {
        packet.message_index = index;
    }
    if packet.sequenced() {
        packet.sequence_index = index;
    }
    if packet.sequenced_or_ordered() {
        packet.order_index = index;
    }
    packet.data = data;
    packet
}

fn datagram(sequence: u32, frames: &[Packet]) -> Vec<u8> {
    let mut bytes = vec![0x80, sequence as u8, (sequence >> 8) as u8, (sequence >> 16) as u8];
    for f in frames {
        f.write(&mut bytes);
    }
    bytes
}

fn sent(outcome: &Outcome) -> Vec<Vec<u8>> {
    outcome
        .actions
        .iter()
        .filter_map(|a| match a {
            Action::Send(bytes) => Some(bytes.clone()),
            _ => None,
        })
        .collect()
}

fn delivered(outcome: &Outcome) -> Vec<Vec<u8>> {
    outcome
        .actions
        .iter()
        .filter_map(|a| match a {
            Action::Deliver(bytes) => Some(bytes.clone()),
            _ => None,
        })
        .collect()
}

#[test]
fn effective_mtu_leaves_out_the_headers() {
    assert_eq!(connected(Role::Server).effective_mtu(), 1492 - 28);
    assert_eq!(Conn::new(Role::Client, ConnState::Unconnected, peer(), 576, 1, 0).effective_mtu(), 548);
}

#[test]
fn one_reliable_ordered_frame_is_delivered_and_acknowledged() {
    let mut conn = connected(Role::Server);
    let bytes = vec![
        0x80, 0x00, 0x00, 0x00, 0x60, 0x00, 0x28, 0x00, 0x00, 0x00, 0x00, 0x00, 0x00, 0x00, 0xfe,
        0x01, 0x02, 0x03, 0x04,
    ];
    let outcome = conn.ReceivePacket(&bytes, 10);
    assert_eq!(outcome.error, None);
    assert_eq!(outcome.actions, vec![Action::Deliver(vec![0xfe, 1, 2, 3, 4])]);
    assert_eq!(conn.tick(100).actions, vec![]);
    assert_eq!(conn.tick(200).actions, vec![]);
    let third = conn.tick(300);
    assert_eq!(third.error, None);
    assert_eq!(third.actions, vec![Action::Send(vec![0xc0, 0x00, 0x01, 0x01, 0x00, 0x00, 0x00])]);
    assert_eq!(conn.tick(400).actions, vec![]);
}

#[test]
fn a_gap_is_nacked_once_it_is_old_enough() {
    let mut conn = connected(Role::Server);
    let f = |i: u32| frame(Reliability::Unreliable, 0, vec![0xfe, i as u8]);
    assert_eq!(sent(&conn.handle_datagram(&datagram(0, &[f(0)]), 1000)), Vec::<Vec<u8>>::new());
    assert_eq!(sent(&conn.handle_datagram(&datagram(1, &[f(1)]), 1001)), Vec::<Vec<u8>>::new());
    let third = conn.handle_datagram(&datagram(3, &[f(3)]), 1002);
    assert_eq!(third.error, None);
    assert_eq!(third.actions, vec![
        Action::Send(vec![0xa0, 0x00, 0x01, 0x01, 0x02, 0x00, 0x00]),
        Action::Deliver(vec![0xfe, 3]),
    ]);
}

#[test]
fn a_gap_waits_while_the_round_trip_says_so() {
    let mut conn = connected(Role::Server);
    let f = frame(Reliability::Unreliable, 0, vec![0xfe]);
    let mut sender = connected(Role::Client);
    let first = sent(&sender.write(&[1], Reliability::Reliable, 500));
    assert_eq!(conn.handle_ack(&encode_ack(ACK_HEADER, &vec![0]), 0).error, None);
    assert_eq!(sender.handle_ack(&encode_ack(ACK_HEADER, &vec![0]), 600).error, None);
    assert_eq!(first.len(), 1);
    assert_eq!(sender.round_trip_time(), 100);
    assert_eq!(nack_after(100), 150);
    assert_eq!(sent(&sender.handle_datagram(&datagram(0, &[f.clone()]), 1000)).len(), 0);
    assert_eq!(sent(&sender.handle_datagram(&datagram(2, &[f.clone()]), 1000)).len(), 0);
    assert_eq!(sent(&sender.handle_datagram(&datagram(4, &[f.clone()]), 1149)).len(), 0);
    let nack = sent(&sender.handle_datagram(&datagram(6, &[f.clone()]), 1150));
    assert_eq!(nack, vec![encode_ack(NACK_HEADER, &vec![1])]);
    let later = sent(&sender.handle_datagram(&datagram(8, &[f]), 1299));
    assert_eq!(later, vec![encode_ack(NACK_HEADER, &vec![1, 3])]);
}

#[test]
fn a_repeated_datagram_is_dropped() {
    let mut conn = connected(Role::Server);
    let bytes = datagram(0, &[frame(Reliability::Reliable, 0, vec![0xfe, 7])]);
    let first = conn.handle_datagram(&bytes, 5);
    assert_eq!(first.actions, vec![Action::Deliver(vec![0xfe, 7])]);
    let second = conn.handle_datagram(&bytes, 6);
    assert_eq!(second.error, None);
    assert_eq!(second.actions, vec![]);
    conn.tick(100);
    conn.tick(200);
    assert_eq!(sent(&conn.tick(300)), vec![vec![0xc0, 0, 1, 1, 0, 0, 0]]);
}

#[test]
fn four_thousand_bytes_go_out_in_three_fragments() {
    let mut conn = connected(Role::Client);
    let mut payload: Vec<u8> = (0..4000u32).map(|x| (x % 251) as u8).collect();
    payload[0] = 0xfe;
    let outcome = conn.write(&payload, Reliability::ReliableOrdered, 50);
    assert_eq!(outcome.error, None);
    let datagrams = sent(&outcome);
    assert_eq!(datagrams.len(), 3);
    assert_eq!((4000 + (1464 - 23) - 1) / (1464 - 23), 3);
    let mut receiver = connected(Role::Server);
    let mut got = Vec::new();
    let lengths: Vec<usize> = datagrams.iter().map(|d| d.len()).collect();
    assert_eq!(lengths, vec![4 + 20 + 1441, 4 + 20 + 1441, 4 + 20 + (4000 - 2 * 1441)]);
    for (i, bytes) in datagrams.iter().enumerate() {
        let (sequence, frames) = handle_datagram(bytes).unwrap();
        assert_eq!(sequence, i as u32);
        assert_eq!(frames.len(), 1);
        assert_eq!(frames[0].reliability, Reliability::ReliableOrdered);
        assert!(frames[0].split);
        assert_eq!(frames[0].split_count, 3);
        assert_eq!(frames[0].split_id, 0);
        assert_eq!(frames[0].split_index, i as u32);
        assert_eq!(frames[0].message_index, i as u32);
        assert_eq!(frames[0].order_index, 0);
        got.extend(delivered(&receiver.handle_datagram(bytes, 60)));
    }
    assert_eq!(got, vec![payload]);
}

#[test]
fn fragments_in_any_order_give_the_payload() {
    let mut conn = connected(Role::Client);
    let mut payload: Vec<u8> = (0..5000u32).map(|x| (x * 3 % 256) as u8).collect();
    payload[0] = 0xfe;
    let datagrams = sent(&conn.write(&payload, Reliability::Reliable, 0));
    assert_eq!(datagrams.len(), 4);
    let mut receiver = connected(Role::Server);
    let mut got = Vec::new();
    for i in [2usize, 0, 3, 1] {
        got.extend(delivered(&receiver.handle_datagram(&datagrams[i], 1)));
    }
    assert_eq!(got, vec![payload]);
}

#[test]
fn a_small_payload_goes_out_in_one_unsplit_frame() {
    let mut conn = connected(Role::Client);
    let datagrams = sent(&conn.write(&[0xfe, 9], Reliability::ReliableOrdered, 0));
    assert_eq!(
        datagrams,
        vec![vec![0x80, 0, 0, 0, 0x60, 0x00, 0x10, 0, 0, 0, 0, 0, 0, 0, 0xfe, 9]]
    );
    let next = sent(&conn.write(&[0xfe, 8], Reliability::ReliableOrdered, 0));
    assert_eq!(
        next,
        vec![vec![0x80, 1, 0, 0, 0x60, 0x00, 0x10, 1, 0, 0, 1, 0, 0, 0, 0xfe, 8]]
    );
    let plain = sent(&conn.write(&[0xfe], Reliability::Unreliable, 0));
    assert_eq!(plain, vec![vec![0x80, 2, 0, 0, 0x00, 0x00, 0x08, 0xfe]]);
    let sequenced = sent(&conn.write(&[0xfe], Reliability::UnreliableSequenced, 0));
    assert_eq!(sequenced, vec![vec![0x80, 3, 0, 0, 0x20, 0x00, 0x08, 0, 0, 0, 2, 0, 0, 0, 0xfe]]);
}

#[test]
fn nothing_goes_out_for_an_empty_payload() {
    let mut conn = connected(Role::Client);
    let outcome = conn.write(&[], Reliability::Reliable, 0);
    assert_eq!(outcome.error, None);
    assert_eq!(outcome.actions, vec![]);
}

#[test]
fn ordered_payloads_are_delivered_in_order() {
    let mut conn = connected(Role::Server);
    let f = |i: u32| frame(Reliability::ReliableOrdered, i, vec![0xfe, i as u8]);
    assert_eq!(delivered(&conn.handle_datagram(&datagram(0, &[f(1)]), 0)), Vec::<Vec<u8>>::new());
    assert_eq!(delivered(&conn.handle_datagram(&datagram(1, &[f(2)]), 0)), Vec::<Vec<u8>>::new());
    assert_eq!(
        delivered(&conn.handle_datagram(&datagram(2, &[f(0)]), 0)),
        vec![vec![0xfe, 0], vec![0xfe, 1], vec![0xfe, 2]]
    );
    assert_eq!(delivered(&conn.handle_datagram(&datagram(3, &[f(3)]), 0)), vec![vec![0xfe, 3]]);
}

#[test]
fn older_sequenced_payloads_are_passed_over() {
    let mut conn = connected(Role::Server);
    let f = |i: u32| frame(Reliability::UnreliableSequenced, i, vec![0xfe, i as u8]);
    assert_eq!(delivered(&conn.handle_datagram(&datagram(0, &[f(5)]), 0)), vec![vec![0xfe, 5]]);
    assert_eq!(delivered(&conn.handle_datagram(&datagram(1, &[f(3)]), 0)), Vec::<Vec<u8>>::new());
    assert_eq!(delivered(&conn.handle_datagram(&datagram(2, &[f(5)]), 0)), Vec::<Vec<u8>>::new());
    assert_eq!(delivered(&conn.handle_datagram(&datagram(3, &[f(6)]), 0)), vec![vec![0xfe, 6]]);
}

#[test]
fn several_frames_in_one_datagram() {
    let mut conn = connected(Role::Server);
    let frames = [
        frame(Reliability::Unreliable, 0, vec![0xfe, 1]),
        frame(Reliability::Reliable, 0, vec![0xfe, 2]),
        frame(Reliability::ReliableOrdered, 0, vec![0xfe, 3]),
    ];
    let outcome = conn.handle_datagram(&datagram(0, &frames), 0);
    assert_eq!(outcome.error, None);
    assert_eq!(delivered(&outcome), vec![vec![0xfe, 1], vec![0xfe, 2], vec![0xfe, 3]]);
}

#[test]
fn frames_before_a_broken_one_are_taken_in() {
    let mut conn = connected(Role::Server);
    let mut bytes = datagram(0, &[frame(Reliability::Unreliable, 0, vec![0xfe, 1])]);
    bytes.extend_from_slice(&[0xe0, 0, 0]);
    let outcome = conn.handle_datagram(&bytes, 0);
    assert_eq!(outcome.error, Some(ProtoError::BadReliability));
    assert_eq!(delivered(&outcome), vec![vec![0xfe, 1]]);
    let mut short = datagram(1, &[frame(Reliability::Unreliable, 0, vec![0xfe, 2])]);
    short.pop();
    let outcome = conn.handle_datagram(&short, 0);
    assert_eq!(outcome.error, Some(ProtoError::ShortPayload));
    assert_eq!(outcome.actions, vec![]);
    assert_eq!(conn.handle_datagram(&[0x80, 0, 0], 0).error, Some(ProtoError::ShortPayload));
}

#[test]
fn split_errors_reach_the_caller() {
    let mut conn = connected(Role::Server);
    let mut f = frame(Reliability::Reliable, 0, vec![1]);
    f.split = true;
    f.split_count = 2;
    f.split_index = 2;
    assert_eq!(conn.handle_datagram(&datagram(0, &[f.clone()]), 0).error, Some(ProtoError::SplitIndexOutOfRange));
    assert!(!conn.closing());
    f.split_index = 0;
    assert_eq!(conn.handle_datagram(&datagram(1, &[f.clone()]), 0).error, None);
    f.split_count = 3;
    assert_eq!(conn.handle_datagram(&datagram(2, &[f.clone()]), 0).error, Some(ProtoError::SplitCountMismatch));
    assert!(!conn.closing());
    f.split_count = 1025;
    f.split_id = 9;
    assert_eq!(conn.handle_datagram(&datagram(3, &[f]), 0).error, Some(ProtoError::SplitLimitExceeded));
    assert!(conn.closing());
    assert_eq!(conn.state(), ConnState::Closing);
}

#[test]
fn a_window_over_its_cap_closes_the_connection() {
    let mut conn = connected(Role::Server);
    let f = frame(Reliability::Unreliable, 0, vec![0xfe]);
    assert_eq!(conn.handle_datagram(&datagram(2047, &[f.clone()]), 0).error, None);
    let outcome = conn.handle_datagram(&datagram(2048, &[f.clone()]), 0);
    assert_eq!(outcome.error, Some(ProtoError::WindowOverflow));
    assert_eq!(outcome.actions, vec![]);
    assert_eq!(conn.state(), ConnState::Closing);
    assert_eq!(conn.tick(1).actions, vec![]);
    let mut free = connected(Role::Server);
    free.set_limits(false);
    let outcome = free.handle_datagram(&datagram(5000, &[f]), 0);
    assert_eq!(outcome.error, None);
    assert_eq!(delivered(&outcome).len(), 1);
}

#[test]
fn an_acknowledgement_empties_the_table_and_sets_the_round_trip() {
    let mut conn = connected(Role::Client);
    for i in 0..5u8 {
        assert_eq!(sent(&conn.write(&[0xfe, i], Reliability::Reliable, 1000 + 10 * i as u64)).len(), 1);
    }
    assert_eq!(conn.round_trip_time(), 0);
    let outcome = conn.handle_ack(&encode_ack(ACK_HEADER, &vec![0, 1, 3]), 1100);
    assert_eq!(outcome, Outcome { actions: vec![], error: None });
    assert_eq!(conn.round_trip_time(), 1100 - 1030);
    let resent = sent(&conn.check_resend(1100 + 200));
    assert_eq!(resent.len(), 2);
    assert_eq!(&resent[0][..4], &[0x80, 5, 0, 0]);
    assert_eq!(&resent[0][4..], &[0x40, 0x00, 0x10, 2, 0, 0, 0xfe, 2]);
    assert_eq!(&resent[1][..4], &[0x80, 6, 0, 0]);
    assert_eq!(&resent[1][4..], &[0x40, 0x00, 0x10, 4, 0, 0, 0xfe, 4]);
    assert_eq!(conn.handle_ack(&encode_ack(ACK_HEADER, &vec![9]), 5000).error, None);
    assert_eq!(conn.round_trip_time(), 70);
    assert_eq!(conn.handle_ack(&[0xc0, 0], 0).error, Some(ProtoError::ShortPayload));
}

#[test]
fn resend_waits_for_two_round_trips_and_no_less_than_the_floor() {
    assert_eq!(resend_after(0), 100);
    assert_eq!(resend_after(50), 100);
    assert_eq!(resend_after(51), 102);
    assert_eq!(resend_after(300), 600);
    assert_eq!(resend_after(u64::MAX), u64::MAX);
    let mut conn = connected(Role::Client);
    assert_eq!(sent(&conn.write(&[0xfe], Reliability::Reliable, 1000)).len(), 1);
    assert_eq!(conn.check_resend(1100).actions, vec![]);
    let again = sent(&conn.check_resend(1101));
    assert_eq!(again, vec![vec![0x80, 1, 0, 0, 0x40, 0x00, 0x08, 0, 0, 0, 0xfe]]);
    assert_eq!(conn.check_resend(1201).actions, vec![]);
    assert_eq!(sent(&conn.check_resend(1202)).len(), 1);
    assert_eq!(conn.handle_ack(&encode_ack(ACK_HEADER, &vec![0]), 1300).error, None);
    assert_eq!(conn.round_trip_time(), 0);
    assert_eq!(conn.handle_ack(&encode_ack(ACK_HEADER, &vec![2]), 1300).error, None);
    assert_eq!(conn.round_trip_time(), 98);
    assert_eq!(conn.check_resend(9999).actions, vec![]);
}

#[test]
fn a_nack_sends_the_listed_datagrams_again_at_once() {
    let mut conn = connected(Role::Client);
    for i in 0..4u8 {
        conn.write(&[0xfe, i], Reliability::Unreliable, 100);
    }
    let outcome = conn.handle_nack(&encode_ack(NACK_HEADER, &vec![1, 2]), 101);
    assert_eq!(outcome.error, None);
    assert_eq!(
        sent(&outcome),
        vec![
            vec![0x80, 4, 0, 0, 0x00, 0x00, 0x10, 0xfe, 1],
            vec![0x80, 5, 0, 0, 0x00, 0x00, 0x10, 0xfe, 2]
        ]
    );
    assert_eq!(conn.handle_nack(&encode_ack(NACK_HEADER, &vec![1, 2]), 102).actions, vec![]);
    assert_eq!(sent(&conn.handle_nack(&encode_ack(NACK_HEADER, &vec![4]), 103)).len(), 1);
    assert_eq!(conn.handle_nack(&[0xa0], 0).error, Some(ProtoError::ShortPayload));
}

#[test]
fn the_table_of_waiting_datagrams_is_capped() {
    let mut conn = connected(Role::Client);
    for _ in 0..2048 {
        assert_eq!(conn.write(&[0xfe], Reliability::Reliable, 0).error, None);
    }
    let outcome = conn.write(&[0xfe], Reliability::Reliable, 0);
    assert_eq!(outcome.error, Some(ProtoError::WindowOverflow));
    assert_eq!(outcome.actions, vec![]);
    assert!(conn.closing());
}

#[test]
fn a_payload_of_too_many_fragments_is_refused() {
    let mut conn = Conn::new(Role::Client, ConnState::Connected, peer(), 576, 1, 0);
    let payload = vec![0u8; 525 * 1024 + 1];
    let outcome = conn.write(&payload, Reliability::Reliable, 0);
    assert_eq!(outcome.error, Some(ProtoError::SplitLimitExceeded));
    assert_eq!(outcome.actions, vec![]);
    assert!(!conn.closing());
    assert_eq!(sent(&conn.write(&payload[..525 * 1024], Reliability::Reliable, 0)).len(), 1024);
}

#[test]
fn ticks_ping_every_fifth_and_flush_every_third() {
    let mut conn = connected(Role::Client);
    let ping = |now: u64| Action::Send(ConnectedPing { client_send_time_be: now }.serialize());
    for tick in 1..=15u64 {
        let now = tick * 100;
        let outcome = conn.tick(now);
        assert_eq!(outcome.error, None);
        if tick % 5 == 0 {
            assert_eq!(outcome.actions, vec![ping(now)]);
        } else {
            assert_eq!(outcome.actions, vec![]);
        }
    }
    conn.handle_datagram(&datagram(0, &[frame(Reliability::Unreliable, 0, vec![0xfe])]), 1510);
    conn.handle_datagram(&datagram(1, &[frame(Reliability::Unreliable, 0, vec![0xfe])]), 1520);
    conn.handle_datagram(&datagram(5, &[frame(Reliability::Unreliable, 0, vec![0xfe])]), 1530);
    assert_eq!(conn.tick(1600).actions, vec![]);
    assert_eq!(conn.tick(1700).actions, vec![]);
    assert_eq!(
        conn.tick(1800).actions,
        vec![Action::Send(vec![0xc0, 0, 2, 0, 0, 0, 0, 1, 0, 0, 1, 5, 0, 0])]
    );
}

#[test]
fn the_third_tick_resends_what_is_overdue() {
    let mut conn = connected(Role::Client);
    assert_eq!(sent(&conn.write(&[0xfe], Reliability::Reliable, 0)).len(), 1);
    assert_eq!(conn.tick(100).actions, vec![]);
    assert_eq!(conn.tick(200).actions, vec![]);
    assert_eq!(
        conn.tick(300).actions,
        vec![Action::Send(vec![0x80, 1, 0, 0, 0x40, 0x00, 0x08, 0, 0, 0, 0xfe])]
    );
}

#[test]
fn silence_closes_the_connection() {
    let mut conn = Conn::new(Role::Server, ConnState::Connected, peer(), 1492, 1, 1000);
    assert_eq!(conn.tick(1000 + DISCONNECT_TIMEOUT).error, None);
    assert!(!conn.closing());
    let outcome = conn.tick(1001 + DISCONNECT_TIMEOUT);
    assert_eq!(outcome.error, Some(ProtoError::Timeout));
    assert_eq!(outcome.actions, vec![Action::Disconnected]);
    assert_eq!(conn.state(), ConnState::Closing);
    assert_eq!(conn.tick(99_999), Outcome { actions: vec![], error: None });
}

#[test]
fn silence_during_the_handshake_is_a_failed_handshake() {
    for state in [ConnState::Unconnected, ConnState::MTUProbed, ConnState::Opened1, ConnState::Opened2] {
        let mut conn = Conn::new(Role::Client, state, peer(), 1492, 1, 0);
        assert_eq!(conn.tick(DISCONNECT_TIMEOUT).error, None);
        let outcome = conn.tick(DISCONNECT_TIMEOUT + 1);
        assert_eq!(outcome.error, Some(ProtoError::HandshakeFailed));
        assert_eq!(outcome.actions, vec![Action::Disconnected]);
        assert!(conn.closing());
    }
}

#[test]
fn any_inbound_bytes_count_as_a_sign_of_life() {
    let mut conn = Conn::new(Role::Server, ConnState::Connected, peer(), 1492, 1, 0);
    assert_eq!(conn.ReceivePacket(&[0x02], 9000).error, None);
    assert_eq!(conn.tick(19_000).error, None);
    assert_eq!(conn.ReceivePacket(&[], 19_500).error, Some(ProtoError::ShortPayload));
    assert_eq!(conn.tick(19_001).error, Some(ProtoError::Timeout));
}

#[test]
fn a_connected_ping_is_answered_with_a_pong() {
    let mut conn = connected(Role::Server);
    let ping = ConnectedPing { client_send_time_be: 777 };
    let raw = conn.ReceivePacket(&ping.serialize(), 5);
    assert_eq!(raw.actions, vec![Action::Send(ConnectedPong { client_send_time_be: 777 }.serialize())]);
    let framed = conn.handle_datagram(&datagram(0, &[frame(Reliability::Unreliable, 0, ping.serialize())]), 6);
    let out = sent(&framed);
    assert_eq!(out.len(), 1);
    let (_, frames) = handle_datagram(&out[0]).unwrap();
    assert_eq!(frames.len(), 1);
    assert_eq!(frames[0].reliability, Reliability::Unreliable);
    assert_eq!(frames[0].data, ConnectedPong { client_send_time_be: 777 }.serialize());
    let pong = conn.handle_datagram(&datagram(1, &[frame(Reliability::Unreliable, 0, ConnectedPong { client_send_time_be: 1 }.serialize())]), 7);
    assert_eq!(pong, Outcome { actions: vec![], error: None });
    assert_eq!(conn.round_trip_time(), 6);
}

#[test]
fn a_pong_gives_the_round_trip_time() {
    let mut conn = connected(Role::Client);
    let mut ping_time = 0;
    for tick in 1..=5u64 {
        for action in conn.tick(tick * 100).actions {
            match action {
                Action::Send(bytes) => match ReadPacket(&bytes) {
                    Ok(PacketT::ConnectedPing(ping)) => ping_time = ping.client_send_time_be,
                    other => panic!("not a ping: {:?}", other),
                },
                other => panic!("unexpected {:?}", other),
            }
        }
    }
    assert_eq!(ping_time, 500);
    let pong = ConnectedPong { client_send_time_be: ping_time };
    assert_eq!(conn.ReceivePacket(&pong.serialize(), 537), Outcome { actions: vec![], error: None });
    assert_eq!(conn.round_trip_time(), 37);
    let late = ConnectedPong { client_send_time_be: 9000 };
    assert_eq!(conn.ReceivePacket(&late.serialize(), 600).error, None);
    assert_eq!(conn.round_trip_time(), 0);
}

#[test]
fn a_disconnect_notification_ends_the_connection() {
    let mut conn = connected(Role::Server);
    let notice = DisconnectNotification {}.serialize();
    let more = frame(Reliability::Unreliable, 0, vec![0xfe]);
    let outcome = conn.handle_datagram(&datagram(0, &[frame(Reliability::Reliable, 0, notice.clone()), more]), 0);
    assert_eq!(outcome.error, Some(ProtoError::PeerDisconnected));
    assert_eq!(outcome.actions, vec![Action::Disconnected]);
    assert_eq!(conn.state(), ConnState::Closed);
    let mut other = connected(Role::Client);
    let outcome = other.ReceivePacket(&notice, 0);
    assert_eq!(outcome.error, Some(ProtoError::PeerDisconnected));
    assert_eq!(other.state(), ConnState::Closed);
}

#[test]
fn send_nack_lists_runs_lowest_first() {
    assert_eq!(Conn::send_nack(&vec![2]), vec![0xa0, 0, 1, 1, 2, 0, 0]);
    assert_eq!(
        Conn::send_nack(&vec![9, 5, 4, 3]),
        vec![0xa0, 0, 2, 0, 3, 0, 0, 5, 0, 0, 1, 9, 0, 0]
    );
}

#[test]
fn probes_go_from_the_largest_unit_to_the_smallest() {
    let sizes: Vec<u16> = (0..12).map(probe_mtu).collect();
    assert_eq!(sizes, vec![1492, 1492, 1492, 1492, 1200, 1200, 1200, 1200, 576, 576, 576, 576]);
    assert_eq!(probe_mtu(12), 576);
}

#[test]
fn the_client_probes_twelve_times_and_gives_up() {
    let mut client = Conn::new(Role::Client, ConnState::Unconnected, peer(), 1492, 0xabc, 0);
    let start = client.connect(5);
    assert_eq!(start.actions, vec![Action::Send(UnconnectedPing { client_send_time_be: 5, client_guid_be: 0xabc }.serialize())]);
    assert_eq!(client.probe(), Outcome { actions: vec![], error: None });
    let pong = UnconnectedPong { client_send_time_be: 5, server_guid_be: 1, data: vec![] }.serialize();
    let first = client.ReceivePacket(&pong, 10);
    assert_eq!(client.state(), ConnState::MTUProbed);
    let mut lengths = vec![sent(&first)[0].len()];
    for _ in 1..12 {
        let outcome = client.probe();
        assert_eq!(outcome.error, None);
        lengths.push(sent(&outcome)[0].len());
    }
    assert_eq!(lengths, vec![1464, 1464, 1464, 1464, 1172, 1172, 1172, 1172, 548, 548, 548, 548]);
    let last = client.probe();
    assert_eq!(last.error, Some(ProtoError::HandshakeFailed));
    assert_eq!(last.actions, vec![Action::Disconnected]);
    assert_eq!(client.state(), ConnState::Closed);
    assert_eq!(client.probe(), Outcome { actions: vec![], error: None });
}

#[test]
fn the_client_walks_through_the_handshake() {
    let mut client = Conn::new(Role::Client, ConnState::Unconnected, peer(), 1492, 0xabc, 0);
    let pong = UnconnectedPong { client_send_time_be: 0, server_guid_be: 9, data: b"hi".to_vec() };
    let probe = client.ReceivePacket(&pong.serialize(), 10);
    assert_eq!(probe.actions, vec![Action::Send(OpenConnectionRequest1 { client_protocol: 11, max_transmission_unit: 1492 }.serialize())]);
    assert_eq!(client.state(), ConnState::MTUProbed);
    assert_eq!(client.ReceivePacket(&pong.serialize(), 11).actions, vec![]);

    let reply1 = OpenConnectionReply1 { server_guid_be: 9, server_has_security: false, cookie: 0, max_transmission_unit_be: 1200 };
    let request2 = client.ReceivePacket(&reply1.serialize(), 20);
    assert_eq!(request2.actions, vec![Action::Send(OpenConnectionRequest2 { server_address: peer(), max_transmission_unit: 1200, client_guid: 0xabc }.serialize())]);
    assert_eq!(client.state(), ConnState::Opened1);
    assert_eq!(client.effective_mtu(), 1200 - 28);

    let reply2 = OpenConnectionReply2 { server_guid_be: 9, client_address: Address::v4([198, 51, 100, 7], 40000), max_transmission_unit_be: 1200, do_security: false };
    let request = client.ReceivePacket(&reply2.serialize(), 30);
    assert_eq!(client.state(), ConnState::Opened2);
    let out = sent(&request);
    assert_eq!(out.len(), 1);
    let (sequence, frames) = handle_datagram(&out[0]).unwrap();
    assert_eq!(sequence, 0);
    assert_eq!(frames[0].reliability, Reliability::ReliableOrdered);
    match ReadPacket(&frames[0].data) {
        Ok(PacketT::ConnectionRequest(r)) => {
            assert_eq!(r.client_guid, 0xabc);
            assert_eq!(r.request_time, 30);
            assert!(!r.use_security);
        }
        other => panic!("not a connection request: {:?}", other),
    }
}

#[test]
fn client_and_server_reach_the_connected_state() {
    let client_address = Address::v4([198, 51, 100, 7], 40000);
    let mut client = Conn::new(Role::Client, ConnState::Opened1, peer(), 1492, 0xabc, 0);
    let mut server = Conn::new(Role::Server, ConnState::Opened2, client_address, 1492, 0xdef, 0);
    let reply2 = OpenConnectionReply2 { server_guid_be: 0xdef, client_address, max_transmission_unit_be: 1492, do_security: false };
    let request = sent(&client.ReceivePacket(&reply2.serialize(), 100));
    assert_eq!(request.len(), 1);
    let accepted = server.ReceivePacket(&request[0], 110);
    assert_eq!(accepted.error, None);
    assert_eq!(server.state(), ConnState::Opened2);
    let accepted = sent(&accepted);
    assert_eq!(accepted.len(), 1);
    let confirmed = client.ReceivePacket(&accepted[0], 120);
    assert_eq!(confirmed.error, None);
    assert_eq!(client.state(), ConnState::Connected);
    assert_eq!(confirmed.actions.last(), Some(&Action::Connected));
    let confirmation = sent(&confirmed);
    assert_eq!(confirmation.len(), 1);
    let done = server.ReceivePacket(&confirmation[0], 130);
    assert_eq!(done, Outcome { actions: vec![Action::Connected], error: None });
    assert_eq!(server.state(), ConnState::Connected);

    let hello = sent(&client.write(b"\xfehello", Reliability::ReliableOrdered, 140));
    assert_eq!(delivered(&server.ReceivePacket(&hello[0], 150)), vec![b"\xfehello".to_vec()]);
}

#[test]
fn the_offered_unit_is_capped_and_floored() {
    for (offered, settled) in [(1492u16, 1200u16), (1200, 1200), (1199, 1199), (576, 576), (575, 576), (0, 576), (65535, 1200)] {
        let mut client = Conn::new(Role::Client, ConnState::MTUProbed, peer(), 1200, 1, 0);
        let reply = OpenConnectionReply1 { server_guid_be: 9, server_has_security: false, cookie: 0, max_transmission_unit_be: offered };
        client.ReceivePacket(&reply.serialize(), 0);
        assert_eq!(client.effective_mtu(), settled - 28);
    }
}

#[test]
fn a_refused_protocol_version_ends_the_handshake() {
    let mut client = Conn::new(Role::Client, ConnState::MTUProbed, peer(), 1492, 1, 0);
    let refusal = IncompatibleProtocolVersion { server_protocol: 10, server_guid: 2 };
    let outcome = client.ReceivePacket(&refusal.serialize(), 0);
    assert_eq!(outcome.error, Some(ProtoError::HandshakeFailed));
    assert_eq!(outcome.actions, vec![Action::Disconnected]);
    assert_eq!(client.state(), ConnState::Closed);
    let mut connected_client = connected(Role::Client);
    assert_eq!(connected_client.ReceivePacket(&refusal.serialize(), 0), Outcome { actions: vec![], error: None });
}

#[test]
fn messages_out_of_turn_are_passed_over() {
    let mut server = connected(Role::Server);
    let pong = UnconnectedPong { client_send_time_be: 0, server_guid_be: 9, data: vec![] };
    assert_eq!(server.ReceivePacket(&pong.serialize(), 0), Outcome { actions: vec![], error: None });
    let reply1 = OpenConnectionReply1 { server_guid_be: 9, server_has_security: false, cookie: 0, max_transmission_unit_be: 1200 };
    assert_eq!(server.ReceivePacket(&reply1.serialize(), 0), Outcome { actions: vec![], error: None });
    let mut client = Conn::new(Role::Client, ConnState::Unconnected, peer(), 1492, 1, 0);
    assert_eq!(client.ReceivePacket(&reply1.serialize(), 0), Outcome { actions: vec![], error: None });
    assert_eq!(client.state(), ConnState::Unconnected);
    assert_eq!(client.ReceivePacket(&[0x06, 1, 2], 0).error, Some(ProtoError::ShortPayload));
}
