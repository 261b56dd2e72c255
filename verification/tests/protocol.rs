use bitpart::protocol::{
    identity_is_trusted, identity_saved, kyber_key_use, max_key_id, next_key_id, sub_device_ids,
    IdentityChange, KyberKeyUse, KyberKeyUseError, OnNewIdentity, VerifiedState,
};

#[test]
fn next_key_id_starts_at_zero() {
    assert_eq!(next_key_id(&vec![]), 0);
    assert_eq!(max_key_id(&vec![]), None);
}

#[test]
fn next_key_id_is_one_past_the_largest() {
    assert_eq!(next_key_id(&vec![0, 1]), 2);
    assert_eq!(next_key_id(&vec![7, 3, 12]), 13);
    assert_eq!(max_key_id(&vec![7, 3, 12]), Some(12));
    assert_eq!(next_key_id(&vec![0]), 1);
}

#[test]
fn next_key_id_is_never_in_use() {
    let ids = vec![5, 9, 2, 9, 0];
    let next = next_key_id(&ids);
    assert!(!ids.contains(&next));
    assert!(ids.iter().all(|&i| i < next));
}

#[test]
fn unknown_identity_is_trusted_on_first_use() {
    let presented = vec![5u8, 1, 2, 3];
    assert!(identity_is_trusted(None, &presented, OnNewIdentity::Reject));
    assert!(identity_is_trusted(None, &presented, OnNewIdentity::Trust));
}

#[test]
fn stored_identity_is_trusted() {
    let stored = vec![5u8, 1, 2, 3];
    assert!(identity_is_trusted(Some(&stored), &stored.clone(), OnNewIdentity::Reject));
}

#[test]
fn changed_identity_follows_the_policy() {
    let stored = vec![5u8, 1, 2, 3];
    let presented = vec![5u8, 1, 2, 4];
    assert!(!identity_is_trusted(Some(&stored), &presented, OnNewIdentity::Reject));
    assert!(identity_is_trusted(Some(&stored), &presented, OnNewIdentity::Trust));
    let shorter = vec![5u8, 1, 2];
    assert!(!identity_is_trusted(Some(&stored), &shorter, OnNewIdentity::Reject));
}

#[test]
fn saving_identity_reports_replacement() {
    assert_eq!(identity_saved(false), (VerifiedState::Default, IdentityChange::NewOrUnchanged));
    assert_eq!(identity_saved(true), (VerifiedState::Unverified, IdentityChange::ReplacedExisting));
}

#[test]
fn one_time_kyber_key_is_removed() {
    assert_eq!(kyber_key_use(&vec![4, 5], 3, &vec![1u8; 5]), Ok(KyberKeyUse::Remove));
    assert_eq!(kyber_key_use(&vec![], 0, &vec![]), Ok(KyberKeyUse::Remove));
}

#[test]
fn last_resort_kyber_key_records_base_key() {
    let mut base = vec![0u8; 32];
    base[0] = 9;
    base[31] = 7;
    let mut expected = [0u8; 32];
    expected[0] = 9;
    expected[31] = 7;
    assert_eq!(kyber_key_use(&vec![4, 5], 5, &base), Ok(KyberKeyUse::RecordBaseKey(expected)));
}

#[test]
fn last_resort_kyber_key_needs_32_byte_base_key() {
    assert_eq!(kyber_key_use(&vec![4, 5], 4, &vec![1u8; 33]), Err(KyberKeyUseError::InvalidBaseKeySize));
}

#[test]
fn sub_devices_are_read_from_session_addresses() {
    let account: u128 = 0x67e55044_10b1_426f_9247_bb680e5fe0c8;
    let addresses = vec![
        "67e55044-10b1-426f-9247-bb680e5fe0c8.1".to_owned(),
        "67e55044-10b1-426f-9247-bb680e5fe0c8.2".to_owned(),
        "00000000-0000-0000-0000-000000000000.3".to_owned(),
        "67e55044-10b1-426f-9247-bb680e5fe0c8.x".to_owned(),
        "67e55044-10b1-426f-9247-bb680e5fe0c8.+7".to_owned(),
        "67e55044-10b1-426f-9247-bb680e5fe0c8".to_owned(),
        "67e55044-10b1-426f-9247-bb680e5fe0c8.4294967296".to_owned(),
        "67e55044-10b1-426f-9247-bb680e5fe0c8.12".to_owned(),
    ];
    assert_eq!(sub_device_ids(&addresses, account), vec![2, 7, 12]);
}
