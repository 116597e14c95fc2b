use raknet::error::ProtoError;
use raknet::packet::split_packet;
use raknet::splits::{SplitTable, MAX_SPLIT_COUNT};

#[test]
fn fragments_in_order_give_the_payload() {
    let mut table = SplitTable::new();
    assert_eq!(table.add(7, 3, 0, vec![1, 2]), Ok(None));
    assert_eq!(table.add(7, 3, 1, vec![3]), Ok(None));
    assert_eq!(table.add(7, 3, 2, vec![4, 5]), Ok(Some(vec![1, 2, 3, 4, 5])));
}

#[test]
fn fragments_out_of_order_give_the_payload_in_index_order() {
    let mut table = SplitTable::new();
    assert_eq!(table.add(1, 3, 2, vec![30]), Ok(None));
    assert_eq!(table.add(1, 3, 0, vec![10]), Ok(None));
    assert_eq!(table.add(1, 3, 1, vec![20]), Ok(Some(vec![10, 20, 30])));
}

#[test]
fn a_whole_group_leaves_the_table() {
    let mut table = SplitTable::new();
    assert_eq!(table.add(9, 2, 0, vec![1]), Ok(None));
    assert_eq!(table.add(9, 2, 1, vec![2]), Ok(Some(vec![1, 2])));
    assert_eq!(table.add(9, 5, 4, vec![3]), Ok(None));
}

#[test]
fn groups_are_kept_apart_by_id() {
    let mut table = SplitTable::new();
    assert_eq!(table.add(1, 2, 0, vec![1]), Ok(None));
    assert_eq!(table.add(2, 2, 0, vec![7]), Ok(None));
    assert_eq!(table.add(2, 2, 1, vec![8]), Ok(Some(vec![7, 8])));
    assert_eq!(table.add(1, 2, 1, vec![2]), Ok(Some(vec![1, 2])));
}

#[test]
fn a_single_fragment_group_is_whole_at_once() {
    let mut table = SplitTable::new();
    assert_eq!(table.add(3, 1, 0, vec![9, 9]), Ok(Some(vec![9, 9])));
}

#[test]
fn a_repeated_fragment_takes_the_place_of_the_first() {
    let mut table = SplitTable::new();
    assert_eq!(table.add(4, 2, 0, vec![1]), Ok(None));
    assert_eq!(table.add(4, 2, 0, vec![5]), Ok(None));
    assert_eq!(table.add(4, 2, 1, vec![6]), Ok(Some(vec![5, 6])));
}

#[test]
fn index_out_of_range_is_refused() {
    let mut table = SplitTable::new();
    assert_eq!(table.add(1, 3, 3, vec![1]), Err(ProtoError::SplitIndexOutOfRange));
    assert_eq!(table.add(1, 0, 0, vec![1]), Err(ProtoError::SplitIndexOutOfRange));
    assert_eq!(table.add(1, 3, u32::MAX, vec![1]), Err(ProtoError::SplitIndexOutOfRange));
}

#[test]
fn count_mismatch_is_refused() {
    let mut table = SplitTable::new();
    assert_eq!(table.add(1, 3, 0, vec![1]), Ok(None));
    assert_eq!(table.add(1, 4, 1, vec![2]), Err(ProtoError::SplitCountMismatch));
    assert_eq!(table.add(1, 3, 1, vec![2]), Ok(None));
    assert_eq!(table.add(1, 3, 2, vec![3]), Ok(Some(vec![1, 2, 3])));
}

#[test]
fn count_over_the_cap_is_refused() {
    let mut table = SplitTable::new();
    assert_eq!(
        table.add(1, MAX_SPLIT_COUNT + 1, 0, vec![1]),
        Err(ProtoError::SplitLimitExceeded)
    );
    assert_eq!(table.add(1, MAX_SPLIT_COUNT, 0, vec![1]), Ok(None));
}

#[test]
fn split_then_collect_gives_the_payload_back() {
    let payload: Vec<u8> = (0..10_000u32).map(|x| (x % 253) as u8).collect();
    let fragments = split_packet(&payload, 576);
    let count = fragments.len() as u32;
    assert_eq!(fragments.len(), (10_000 + 552) / 553);
    let mut table = SplitTable::new();
    let mut whole = None;
    for (index, fragment) in fragments.into_iter().enumerate().rev() {
        let outcome = table.add(11, count, index as u32, fragment).unwrap();
        if index > 0 {
            assert_eq!(outcome, None);
        } else {
            whole = outcome;
        }
    }
    assert_eq!(whole, Some(payload));
}
