use bitpart::store::{
    group_master_key, message_range, message_row_key, message_rows, messages_thread_id, profile_key_id, stored_profile_key, to_hex_lower, BitpartContactsIter, BitpartGroupsIter,
    BitpartMessagesIter, BitpartStickerPacksIter, BitpartStoreError, RangeBound, Thread,
};

fn rows(n: u8) -> Vec<(Vec<u8>, Vec<u8>)> {
    (0..n).map(|i| (vec![i], vec![i, i])).collect()
}

#[test]
fn row_iterators_walk_rows_in_order() {
    let mut c = BitpartContactsIter::new(rows(2));
    assert_eq!(c.next(), Some((vec![0], vec![0, 0])));
    assert_eq!(c.next(), Some((vec![1], vec![1, 1])));
    assert_eq!(c.next(), None);
    assert_eq!(c.next(), None);
    let mut s = BitpartStickerPacksIter::new(vec![]);
    assert_eq!(s.next(), None);
}

#[test]
fn messages_iterate_from_both_ends() {
    let mut m = BitpartMessagesIter::new(rows(3));
    assert_eq!(m.next(), Some((vec![0], vec![0, 0])));
    assert_eq!(m.next_back(), Some((vec![2], vec![2, 2])));
    assert_eq!(m.next_back(), Some((vec![1], vec![1, 1])));
    assert_eq!(m.next(), Some((vec![1], vec![1, 1])));
    assert_eq!(m.next(), Some((vec![2], vec![2, 2])));
    assert_eq!(m.next(), None);
}

#[test]
fn messages_back_end_stays_at_first_row() {
    let mut b = BitpartMessagesIter::new(rows(2));
    assert_eq!(b.next_back(), Some((vec![1], vec![1, 1])));
    assert_eq!(b.next_back(), Some((vec![0], vec![0, 0])));
    assert_eq!(b.next_back(), Some((vec![0], vec![0, 0])));
    let mut e = BitpartMessagesIter::new(vec![]);
    assert_eq!(e.next_back(), None);
    assert_eq!(e.next(), None);
}

#[test]
fn messages_ends_move_independently() {
    let mut m = BitpartMessagesIter::new(rows(2));
    assert_eq!(m.next(), Some((vec![0], vec![0, 0])));
    assert_eq!(m.next(), Some((vec![1], vec![1, 1])));
    assert_eq!(m.next(), None);
    assert_eq!(m.next_back(), Some((vec![1], vec![1, 1])));
    assert_eq!(m.next_back(), Some((vec![0], vec![0, 0])));
    assert_eq!(m.next_back(), Some((vec![0], vec![0, 0])));
    assert_eq!(m.next(), None);
}

#[test]
fn group_master_key_must_be_32_bytes() {
    let k: Vec<u8> = (0..32).collect();
    let mut expected = [0u8; 32];
    for (i, b) in expected.iter_mut().enumerate() {
        *b = i as u8;
    }
    assert_eq!(group_master_key(&k), Ok(expected));
    assert_eq!(group_master_key(&vec![1, 2, 3]), Err(BitpartStoreError::GroupDecryption));
}

#[test]
fn ranges_become_timestamp_limits() {
    assert_eq!(message_range(RangeBound::Unbounded, RangeBound::Unbounded), (i64::MIN, i64::MAX, true));
    assert_eq!(message_range(RangeBound::Included(5), RangeBound::Unbounded), (5, i64::MAX, false));
    assert_eq!(message_range(RangeBound::Included(5), RangeBound::Excluded(10)), (5, 9, false));
    assert_eq!(message_range(RangeBound::Included(5), RangeBound::Included(10)), (5, 10, false));
    assert_eq!(message_range(RangeBound::Unbounded, RangeBound::Included(7)), (i64::MIN, 7, false));
    assert_eq!(message_range(RangeBound::Unbounded, RangeBound::Excluded(7)), (i64::MIN, 6, false));
    assert_eq!(message_range(RangeBound::Included(u64::MAX), RangeBound::Unbounded), (-1, i64::MAX, false));
}

#[test]
fn hex_is_lower_case_two_digits_per_byte() {
    assert_eq!(to_hex_lower(&vec![0x00, 0x0f, 0xa0, 0xff]), "000fa0ff");
    assert_eq!(to_hex_lower(&vec![]), "");
}

#[test]
fn thread_ids_hash_the_thread_key() {
    assert_eq!(
        messages_thread_id(&Thread::Contact(0x67e55044_10b1_426f_9247_bb680e5fe0c8)),
        "010b4286b9ac700643d80f5bdb5076fd12ecde9190c6519b61d223e9cc8dc37c"
    );
    assert_eq!(
        messages_thread_id(&Thread::Group([7u8; 32])),
        "58ea08bea7c47a61eee0329191facef8405c283c87620eba92c293d1a0887984"
    );
}

#[test]
fn message_row_keys_are_big_endian_timestamps() {
    assert_eq!(message_row_key(1), vec![0, 0, 0, 0, 0, 0, 0, 1]);
    assert_eq!(message_row_key(0x0102030405060708), vec![1, 2, 3, 4, 5, 6, 7, 8]);
    assert_eq!(message_row_key(-1), vec![0xff; 8]);
    assert_eq!(message_row_key(i64::MIN), vec![0x80, 0, 0, 0, 0, 0, 0, 0]);
    let rows = message_rows(vec![(2, vec![9]), (1, vec![])]);
    assert_eq!(rows, vec![(vec![0, 0, 0, 0, 0, 0, 0, 2], vec![9]), (vec![0, 0, 0, 0, 0, 0, 0, 1], vec![])]);
}

#[test]
fn profile_key_ids_hash_uuid_and_key() {
    assert_eq!(
        profile_key_id(0x67e55044_10b1_426f_9247_bb680e5fe0c8, &[9u8; 32]),
        "33275629064a9bd4cad89e98c386dee3ae6954c9666a52d3176f7d53511937aa"
    );
}

#[test]
fn stored_profile_keys_must_be_32_bytes() {
    assert_eq!(stored_profile_key(&vec![5u8; 32]), Ok([5u8; 32]));
    assert_eq!(
        stored_profile_key(&vec![5u8; 31]),
        Err(BitpartStoreError::Store("Invalid profile key length".to_owned()))
    );
}

#[test]
fn group_rows_yield_groups_and_skip_undecodable_ones() {
    let rows: Vec<(Vec<u8>, Option<&str>)> = vec![
        (vec![1u8; 32], Some("first")),
        (vec![2u8; 32], None),
        (vec![3u8; 5], Some("short key")),
        (vec![4u8; 32], Some("last")),
    ];
    let mut g = BitpartGroupsIter::new(rows);
    assert_eq!(g.next(), Some(Ok(([1u8; 32], "first"))));
    assert_eq!(g.next(), None);
    assert_eq!(g.next(), Some(Err(BitpartStoreError::GroupDecryption)));
    assert_eq!(g.next(), Some(Ok(([4u8; 32], "last"))));
    assert_eq!(g.next(), None);
    assert_eq!(g.next(), None);
}
