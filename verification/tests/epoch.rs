use pyralog::{Epoch, EpochOffset, EpochStore};

#[test]
fn test_epoch_ordering() {
    let e1 = Epoch::new(1);
    let e2 = Epoch::new(2);
    assert!(e1 < e2);
    assert_eq!(e1.next(), e2);
}

#[test]
fn test_epoch_offset() {
    let eo = EpochOffset::new(Epoch::new(5), 100);
    assert_eq!(eo.epoch, Epoch::new(5));
    assert_eq!(eo.offset, 100);

    let lsn = eo.to_lsn();
    let eo2 = EpochOffset::from_lsn(lsn);
    assert_eq!(eo, eo2);
}

#[test]
fn test_epoch_store() {
    let mut store = EpochStore::new();

    // Start first epoch
    let e1 = store.start_epoch(1, 0);
    assert_eq!(e1, Epoch::first());

    // Start second epoch
    let e2 = store.start_epoch(2, 1000);
    assert_eq!(e2, Epoch::new(2));

    // Test offset conversion
    let global_offset = 1050;
    let epoch_offset = store.to_epoch_offset(global_offset).unwrap();
    assert_eq!(epoch_offset.epoch, e2);
    assert_eq!(epoch_offset.offset, 50);

    // Convert back
    let global = store.to_global_offset(epoch_offset).unwrap();
    assert_eq!(global, global_offset);
}

#[test]
fn epoch_test_epoch_sealing() {
    let mut store = EpochStore::new();
    let epoch = store.start_epoch(1, 0);

    assert!(store.get_epoch(epoch).unwrap().can_write());

    store.seal_epoch(epoch, 999);

    assert!(!store.get_epoch(epoch).unwrap().can_write());
    assert_eq!(store.get_epoch(epoch).unwrap().last_known_offset, Some(999));
}

#[test]
fn epoch_mut_reference_writes_through() {
    let mut store = EpochStore::new();
    let epoch = store.start_epoch(7, 10);
    store.get_epoch_mut(epoch).unwrap().seal(4);
    assert_eq!(store.get_epoch(epoch).unwrap().last_known_offset, Some(4));
    assert!(store.get_epoch_mut(Epoch::new(9)).is_none());
}

#[test]
fn epoch_store_orders_offsets_by_epoch() {
    let mut store = EpochStore::new();
    assert_eq!(store.current_epoch(), None);
    assert_eq!(store.epoch_for_offset(0), None);
    assert_eq!(store.to_epoch_offset(5), None);
    let e1 = store.start_epoch(1, 10);
    assert!(store.seal_epoch(e1, 89));
    let e2 = store.start_epoch(2, 100);
    assert_eq!(store.current_epoch(), Some(e2));
    assert_eq!(store.epoch_for_offset(9), None);
    assert_eq!(store.epoch_for_offset(10), Some(e1));
    assert_eq!(store.epoch_for_offset(99), Some(e1));
    assert_eq!(store.epoch_for_offset(100), Some(e2));
    let mut last = None;
    for o in [10u64, 11, 99, 100, 101, 5000] {
        let eo = store.to_epoch_offset(o).unwrap();
        if let Some(prev) = last {
            assert!(prev < eo);
        }
        assert_eq!(store.to_global_offset(eo), Some(o));
        last = Some(eo);
    }
    assert!(store.get_epoch(e1).unwrap().sealed);
    assert!(store.get_epoch(e2).unwrap().start_offset >= 10 + 89 + 1);
}

#[test]
fn epoch_store_refuses_what_does_not_fit() {
    let mut store = EpochStore::new();
    let e1 = store.start_epoch(1, 0);
    assert_eq!(store.to_epoch_offset(u32::MAX as u64).unwrap().offset, u32::MAX);
    assert_eq!(store.to_epoch_offset(u32::MAX as u64 + 1), None);
    let e2 = store.start_epoch(1, u64::MAX - 1);
    assert_eq!(store.to_global_offset(EpochOffset::new(e2, 1)), Some(u64::MAX));
    assert_eq!(store.to_global_offset(EpochOffset::new(e2, 2)), None);
    assert_eq!(store.to_global_offset(EpochOffset::new(Epoch::new(9), 0)), None);
    assert!(!store.seal_epoch(Epoch::new(9), 1));
    // The first epoch was sealed when the second began, as far as 32 bits
    // reach; sealing it again changes nothing.
    assert!(store.get_epoch(e1).unwrap().sealed);
    assert_eq!(store.get_epoch(e1).unwrap().last_known_offset, Some(u32::MAX));
    assert!(store.seal_epoch(e1, 5));
    assert_eq!(store.get_epoch(e1).unwrap().last_known_offset, Some(u32::MAX));
    assert!(store.seal_epoch(e2, 5));
    assert!(store.seal_epoch(e2, 6));
    assert_eq!(store.get_epoch(e2).unwrap().last_known_offset, Some(5));
}

#[test]
fn a_new_epoch_seals_the_one_before_it() {
    let mut store = EpochStore::new();
    let e1 = store.start_epoch(1, 0);
    let e2 = store.start_epoch(2, 1000);
    assert_eq!((e1, e2), (Epoch::new(1), Epoch::new(2)));
    let first = *store.get_epoch(e1).unwrap();
    assert!(first.sealed);
    assert_eq!(first.last_known_offset, Some(999));
    let second = *store.get_epoch(e2).unwrap();
    assert!(!second.sealed);
    assert_eq!(second.last_known_offset, None);
    assert_eq!(second.start_offset, 1000);
    assert_eq!(store.current_epoch(), Some(e2));
}

#[test]
fn an_epoch_begins_behind_the_one_before_it() {
    let mut store = EpochStore::new();
    let e1 = store.start_epoch(1, 100);
    // Not behind the start of an open epoch: refused, nothing changes.
    assert_eq!(store.start_epoch(2, 100), Epoch::invalid());
    assert_eq!(store.start_epoch(2, 5), Epoch::invalid());
    assert_eq!(store.current_epoch(), Some(e1));
    assert!(!store.get_epoch(e1).unwrap().sealed);
    // Sealed at its offset 49, the epoch ends at 149; the next begins at
    // 150 or later.
    assert!(store.seal_epoch(e1, 49));
    assert_eq!(store.start_epoch(2, 149), Epoch::invalid());
    assert_eq!(store.current_epoch(), Some(e1));
    let e2 = store.start_epoch(2, 150);
    assert_eq!(e2, Epoch::new(2));
    assert_eq!(store.get_epoch(e1).unwrap().last_known_offset, Some(49));
    assert_eq!(store.latest().unwrap().current_epoch, e2);
    assert_eq!(store.latest().unwrap().sequencer_node, 2);
    assert_eq!(EpochStore::new().latest(), None);
}
