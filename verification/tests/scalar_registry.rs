use ledger_registry::events::Event;
use ledger_registry::pallet::Pallet;
use ledger_registry::types::Error;

#[test]
fn set_works() {
    let mut p = Pallet::new();
    assert!(p.set_single_entry(1, 19).is_ok());
    assert_eq!(p.last_event(), Some(&Event::EntrySet(1, 19)));
}

#[test]
fn get_throws() {
    let mut p = Pallet::new();
    assert_eq!(p.get_single_entry(2, 3), Err(Error::NoValueStored));
}

#[test]
fn get_works() {
    let mut p = Pallet::new();
    assert!(p.set_single_entry(2, 19).is_ok());
    assert!(p.get_single_entry(1, 2).is_ok());
    assert_eq!(p.last_event(), Some(&Event::EntryGot(1, 19)));
    // Storage is still set: a read mutates nothing.
    assert_eq!(p.simple_map(2), 19);
}

#[test]
fn take_throws() {
    let mut p = Pallet::new();
    assert_eq!(p.take_single_entry(2), Err(Error::NoValueStored));
}

#[test]
fn take_works() {
    let mut p = Pallet::new();
    assert!(p.set_single_entry(2, 19).is_ok());
    assert!(p.take_single_entry(2).is_ok());
    assert_eq!(p.last_event(), Some(&Event::EntryTaken(2, 19)));
    // Storage has returned to its implicit default value (zero).
    assert_eq!(p.simple_map(2), 0);
}

#[test]
fn increase_works() {
    let mut p = Pallet::new();
    assert!(p.set_single_entry(2, 19).is_ok());
    assert!(p.increase_single_entry(2, 2).is_ok());
    assert_eq!(p.last_event(), Some(&Event::EntryIncreased(2, 19, 21)));
    assert_eq!(p.simple_map(2), 21);
}

#[test]
fn set_overwrites_prior_value() {
    let mut p = Pallet::new();
    assert_eq!(p.set_single_entry(1, 5), Ok(()));
    assert_eq!(p.set_single_entry(1, 7), Ok(()));
    assert_eq!(p.get_single_entry(1, 1), Ok(7));
    assert_eq!(p.event_count(), 3);
}

#[test]
fn increase_throws_without_entry() {
    let mut p = Pallet::new();
    assert_eq!(p.increase_single_entry(4, 1), Err(Error::NoValueStored));
    assert_eq!(p.event_count(), 0);
}

#[test]
fn increase_rejects_overflow() {
    let mut p = Pallet::new();
    assert_eq!(p.set_single_entry(3, u64::MAX), Ok(()));
    assert_eq!(p.increase_single_entry(3, 1), Err(Error::Overflow));
    // The failed call mutated nothing and logged nothing.
    assert_eq!(p.simple_map(3), u64::MAX);
    assert_eq!(p.event_count(), 1);
}

#[test]
fn take_leaves_no_entry_behind() {
    let mut p = Pallet::new();
    assert_eq!(p.set_single_entry(6, 19), Ok(()));
    assert_eq!(p.take_single_entry(6), Ok(19));
    // The entry is gone, not merely zeroed: a read now fails.
    assert_eq!(p.get_single_entry(1, 6), Err(Error::NoValueStored));
}

#[test]
fn failed_scalar_calls_change_nothing() {
    let mut p = Pallet::new();
    assert_eq!(p.set_single_entry(1, 5), Ok(()));
    assert_eq!(p.get_single_entry(0, 99), Err(Error::NoValueStored));
    assert_eq!(p.take_single_entry(7), Err(Error::NoValueStored));
    assert_eq!(p.increase_single_entry(9, 1), Err(Error::NoValueStored));
    assert_eq!(p.simple_map(1), 5);
    assert_eq!(p.event_count(), 1);
    assert_eq!(p.last_event(), Some(&Event::EntrySet(1, 5)));
}

#[test]
fn event_log_orders_successful_calls() {
    let mut p = Pallet::new();
    assert_eq!(p.set_single_entry(2, 19), Ok(()));
    assert_eq!(p.get_single_entry(1, 2), Ok(19));
    assert_eq!(p.increase_single_entry(2, 2), Ok(21));
    assert_eq!(p.take_single_entry(7), Err(Error::NoValueStored));
    assert_eq!(p.take_single_entry(2), Ok(21));
    assert_eq!(p.event_count(), 4);
    assert_eq!(p.event_at(0), &Event::EntrySet(2, 19));
    assert_eq!(p.event_at(1), &Event::EntryGot(1, 19));
    assert_eq!(p.event_at(2), &Event::EntryIncreased(2, 19, 21));
    assert_eq!(p.event_at(3), &Event::EntryTaken(2, 21));
}
