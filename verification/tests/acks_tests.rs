use raknet::acks::{
    coalesce, covers, encode_ack, read_ack, reversed, write_ack, AckRange, ACK_HEADER, NACK_HEADER,
};
use raknet::error::ProtoError;

#[test]
fn a_single_number_is_a_single_record() {
    let bytes = write_ack(ACK_HEADER, &vec![AckRange { start: 0, end: 0 }]);
    assert_eq!(bytes, vec![0xc0, 0x00, 0x01, 0x01, 0, 0, 0]);
    assert_eq!(read_ack(&bytes), Ok(vec![AckRange { start: 0, end: 0 }]));
}

#[test]
fn a_run_is_a_range_record() {
    let bytes = write_ack(NACK_HEADER, &vec![AckRange { start: 2, end: 0x010203 }]);
    assert_eq!(bytes, vec![0xa0, 0x00, 0x01, 0x00, 2, 0, 0, 3, 2, 1]);
    assert_eq!(read_ack(&bytes), Ok(vec![AckRange { start: 2, end: 0x010203 }]));
}

#[test]
fn records_follow_one_another() {
    let ranges = vec![
        AckRange { start: 1, end: 1 },
        AckRange { start: 3, end: 9 },
        AckRange { start: 0xff_ffff, end: 0xff_ffff },
    ];
    let bytes = write_ack(ACK_HEADER, &ranges);
    assert_eq!(bytes.len(), 3 + 4 + 7 + 4);
    assert_eq!(&bytes[1..3], &[0, 3]);
    assert_eq!(read_ack(&bytes), Ok(ranges));
}

#[test]
fn an_empty_list_round_trips() {
    let bytes = write_ack(ACK_HEADER, &vec![]);
    assert_eq!(bytes, vec![0xc0, 0, 0]);
    assert_eq!(read_ack(&bytes), Ok(vec![]));
}

#[test]
fn short_acknowledgements_are_refused() {
    assert_eq!(read_ack(&[]), Err(ProtoError::ShortPayload));
    assert_eq!(read_ack(&[0xc0, 0]), Err(ProtoError::ShortPayload));
    assert_eq!(read_ack(&[0xc0, 0, 1]), Err(ProtoError::ShortPayload));
    assert_eq!(read_ack(&[0xc0, 0, 1, 1, 0, 0]), Err(ProtoError::ShortPayload));
    assert_eq!(read_ack(&[0xc0, 0, 1, 0, 0, 0, 0, 1, 0]), Err(ProtoError::ShortPayload));
    assert_eq!(read_ack(&[0xc0, 0, 2, 1, 0, 0, 0]), Err(ProtoError::ShortPayload));
}

#[test]
fn coalesce_gathers_runs() {
    assert_eq!(coalesce(&vec![]), vec![]);
    assert_eq!(coalesce(&vec![5]), vec![AckRange { start: 5, end: 5 }]);
    assert_eq!(
        coalesce(&vec![0, 1, 2, 4, 6, 7]),
        vec![
            AckRange { start: 0, end: 2 },
            AckRange { start: 4, end: 4 },
            AckRange { start: 6, end: 7 }
        ]
    );
    assert_eq!(
        coalesce(&vec![3, 2, 1]),
        vec![
            AckRange { start: 3, end: 3 },
            AckRange { start: 2, end: 2 },
            AckRange { start: 1, end: 1 }
        ]
    );
    assert_eq!(
        coalesce(&vec![7, 7, 8]),
        vec![AckRange { start: 7, end: 7 }, AckRange { start: 7, end: 8 }]
    );
}

#[test]
fn coalesced_runs_list_the_same_numbers() {
    let numbers: Vec<u32> = vec![10, 11, 12, 20, 21, 5, 6, 7, 8, 100];
    let mut listed = Vec::new();
    for range in coalesce(&numbers) {
        assert!(range.start <= range.end);
        for n in range.start..=range.end {
            listed.push(n);
        }
    }
    assert_eq!(listed, numbers);
}

#[test]
fn encode_ack_for_one_datagram() {
    assert_eq!(encode_ack(ACK_HEADER, &vec![0]), vec![0xc0, 0, 1, 1, 0, 0, 0]);
    assert_eq!(
        encode_ack(NACK_HEADER, &vec![2, 3, 4]),
        vec![0xa0, 0, 1, 0, 2, 0, 0, 4, 0, 0]
    );
}

#[test]
fn covers_tells_membership() {
    let ranges = vec![AckRange { start: 2, end: 4 }, AckRange { start: 9, end: 9 }];
    for (n, yes) in [(1u32, false), (2, true), (3, true), (4, true), (5, false), (9, true), (10, false)] {
        assert_eq!(covers(&ranges, n), yes);
    }
    assert!(!covers(&vec![], 0));
    assert!(!covers(&vec![AckRange { start: 5, end: 3 }], 4));
}

#[test]
fn reversed_turns_a_list_around() {
    assert_eq!(reversed(&vec![1, 2, 3]), vec![3, 2, 1]);
    assert_eq!(reversed(&vec![]), Vec::<u32>::new());
}
