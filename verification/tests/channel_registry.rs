use ledger_registry::events::Event;
use ledger_registry::membership::Membership;
use ledger_registry::pallet::Pallet;
use ledger_registry::types::Config;
use ledger_registry::types::Error;

fn config() -> Config {
    Config { max_channel_id_bytes: 8, max_secret_bytes: 8 }
}

#[test]
fn new_channel_writes_one_row_per_member() {
    let mut p = Pallet::new();
    let mut m = Membership::new();
    m.insert(2, vec![10, 11]);
    m.insert(1, vec![9]);
    assert_eq!(p.new_channel(&config(), 2, vec![5, 6], &m), Ok(()));
    let cid = vec![5, 6];
    assert_eq!(
        p.common_key_by_channel_id_account_id(&cid, 1),
        Some(&vec![9])
    );
    assert_eq!(
        p.common_key_by_channel_id_account_id(&cid, 2),
        Some(&vec![10, 11])
    );
    assert_eq!(p.common_key_by_channel_id_account_id(&cid, 3), None);
}

#[test]
fn new_channel_lists_accounts_in_ascending_order() {
    let mut p = Pallet::new();
    let mut m = Membership::new();
    // Inserted out of order; the recorded list is canonical: ascending.
    m.insert(7, vec![3]);
    m.insert(2, vec![1]);
    m.insert(5, vec![2]);
    assert_eq!(p.new_channel(&config(), 5, vec![1], &m), Ok(()));
    assert_eq!(p.event_count(), 1);
    assert_eq!(
        p.last_event(),
        Some(&Event::ChannelCreated(vec![1], vec![2, 5, 7]))
    );
}

#[test]
fn new_channel_requires_own_secret() {
    let mut p = Pallet::new();
    let mut m = Membership::new();
    m.insert(2, vec![9]);
    assert_eq!(
        p.new_channel(&config(), 3, vec![1], &m),
        Err(Error::CommonKeyOfOriginRequired)
    );
    // No row was written, not even for the accounts that were supplied.
    let cid = vec![1];
    assert_eq!(p.common_key_by_channel_id_account_id(&cid, 2), None);
    assert_eq!(p.event_count(), 0);
}

#[test]
fn new_channel_rejects_long_channel_id() {
    let mut p = Pallet::new();
    let mut m = Membership::new();
    m.insert(2, vec![9]);
    let cid = vec![0; 9];
    assert_eq!(p.new_channel(&config(), 2, cid.clone(), &m), Err(Error::TooLarge));
    assert_eq!(p.common_key_by_channel_id_account_id(&cid, 2), None);
    assert_eq!(p.event_count(), 0);
}

#[test]
fn new_channel_rejects_long_secret() {
    let mut p = Pallet::new();
    let mut m = Membership::new();
    m.insert(2, vec![9]);
    m.insert(4, vec![0; 9]);
    let cid = vec![1];
    assert_eq!(p.new_channel(&config(), 2, cid.clone(), &m), Err(Error::TooLarge));
    // A single oversized value aborts the whole call with no partial writes.
    assert_eq!(p.common_key_by_channel_id_account_id(&cid, 2), None);
    assert_eq!(p.common_key_by_channel_id_account_id(&cid, 4), None);
    assert_eq!(p.event_count(), 0);
}

#[test]
fn bounds_are_checked_before_self_inclusion() {
    let mut p = Pallet::new();
    let mut m = Membership::new();
    m.insert(2, vec![0; 9]);
    // Both preconditions are violated; the size bound is reported.
    assert_eq!(p.new_channel(&config(), 3, vec![1], &m), Err(Error::TooLarge));
}

#[test]
fn membership_insert_replaces_prior_secret() {
    let mut p = Pallet::new();
    let mut m = Membership::new();
    m.insert(2, vec![1]);
    m.insert(2, vec![2]);
    let cid = vec![4];
    assert_eq!(p.new_channel(&config(), 2, cid.clone(), &m), Ok(()));
    assert_eq!(p.common_key_by_channel_id_account_id(&cid, 2), Some(&vec![2]));
    assert_eq!(p.last_event(), Some(&Event::ChannelCreated(vec![4], vec![2])));
}

#[test]
fn recreating_a_channel_overwrites_only_supplied_members() {
    let mut p = Pallet::new();
    let cid = vec![7];
    let mut first = Membership::new();
    first.insert(1, vec![11]);
    first.insert(2, vec![12]);
    assert_eq!(p.new_channel(&config(), 1, cid.clone(), &first), Ok(()));
    let mut second = Membership::new();
    second.insert(2, vec![13]);
    assert_eq!(p.new_channel(&config(), 2, cid.clone(), &second), Ok(()));
    // The row of the re-supplied member is overwritten; the other row drifts.
    assert_eq!(p.common_key_by_channel_id_account_id(&cid, 1), Some(&vec![11]));
    assert_eq!(p.common_key_by_channel_id_account_id(&cid, 2), Some(&vec![13]));
}

#[test]
fn channels_with_distinct_ids_do_not_mix() {
    let mut p = Pallet::new();
    let mut m = Membership::new();
    m.insert(2, vec![9]);
    assert_eq!(p.new_channel(&config(), 2, vec![1], &m), Ok(()));
    assert_eq!(p.new_channel(&config(), 2, vec![2], &m), Ok(()));
    let first = vec![1];
    let second = vec![2];
    let third = vec![3];
    assert_eq!(p.common_key_by_channel_id_account_id(&first, 2), Some(&vec![9]));
    assert_eq!(p.common_key_by_channel_id_account_id(&second, 2), Some(&vec![9]));
    assert_eq!(p.common_key_by_channel_id_account_id(&third, 2), None);
}

#[test]
fn empty_channel_id_is_accepted() {
    let mut p = Pallet::new();
    let mut m = Membership::new();
    m.insert(6, vec![]);
    let cid: Vec<u8> = Vec::new();
    assert_eq!(p.new_channel(&config(), 6, cid.clone(), &m), Ok(()));
    assert_eq!(p.common_key_by_channel_id_account_id(&cid, 6), Some(&Vec::new()));
}

#[test]
fn scalar_and_channel_calls_share_one_log() {
    let mut p = Pallet::new();
    assert_eq!(p.set_single_entry(2, 19), Ok(()));
    let mut m = Membership::new();
    m.insert(2, vec![9]);
    assert_eq!(p.new_channel(&config(), 2, vec![1], &m), Ok(()));
    assert_eq!(p.event_count(), 2);
    assert_eq!(p.event_at(0), &Event::EntrySet(2, 19));
    assert_eq!(p.event_at(1), &Event::ChannelCreated(vec![1], vec![2]));
    // The channel call left the scalar registry alone.
    assert_eq!(p.simple_map(2), 19);
}
