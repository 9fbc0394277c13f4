use pyralog::{Epoch, PartitionId, Sequencer};

#[test]
fn test_sequencer_activation() {
    let mut sequencer = Sequencer::new(1);
    let partition = PartitionId::new(0);

    let epoch = sequencer.activate(partition, 0);
    assert_eq!(epoch, Epoch::first());
    assert_eq!(sequencer.current_epoch(partition), Some(epoch));
}

#[test]
fn sequencer_test_epoch_sealing() {
    let mut sequencer = Sequencer::new(1);
    let partition = PartitionId::new(0);

    let epoch = sequencer.activate(partition, 0);
    assert!(sequencer.can_write(partition, epoch));

    sequencer.seal_epoch(partition, epoch, 999);
    assert!(!sequencer.can_write(partition, epoch));
}

#[test]
fn test_failover() {
    let mut sequencer1 = Sequencer::new(1);
    let mut sequencer2 = Sequencer::new(2);
    let partition = PartitionId::new(0);

    // Node 1 activates
    let epoch1 = sequencer1.activate(partition, 0);
    assert_eq!(epoch1, Epoch::first());

    // Node 1 seals its epoch
    sequencer1.seal_epoch(partition, epoch1, 999);

    // Node 2 learns the partition's epochs and activates with new epoch
    sequencer2.adopt(partition, sequencer1.get_epoch_store(partition).unwrap());
    let epoch2 = sequencer2.activate(partition, 1000);
    assert_eq!(epoch2, Epoch::new(2));
    assert!(epoch2 > epoch1);
}

#[test]
fn sequencer_keeps_partitions_apart() {
    let mut sequencer = Sequencer::new(7);
    let a = PartitionId::new(0);
    let b = PartitionId::new(1);
    assert_eq!(sequencer.current_epoch(a), None);
    assert!(!sequencer.can_write(a, Epoch::first()));
    assert!(!sequencer.seal_epoch(a, Epoch::first(), 3));
    assert!(sequencer.get_epoch_store(a).is_none());

    assert_eq!(sequencer.activate(a, 0), Epoch::new(1));
    assert_eq!(sequencer.activate(a, 10), Epoch::new(2));
    assert_eq!(sequencer.activate(b, 0), Epoch::new(1));
    assert_eq!(sequencer.current_epoch(a), Some(Epoch::new(2)));
    assert_eq!(sequencer.current_epoch(b), Some(Epoch::new(1)));

    let mut fresh = Sequencer::new(8);
    assert_eq!(fresh.activate(a, 1000), Epoch::new(1));

    let store = sequencer.get_epoch_store(a).unwrap();
    assert_eq!(store.get_epoch(Epoch::new(2)).unwrap().sequencer_node, 7);
    assert_eq!(store.get_epoch(Epoch::new(2)).unwrap().start_offset, 10);
    assert_eq!(store.to_epoch_offset(12).unwrap().offset, 2);
}

#[test]
fn a_node_writes_under_its_own_open_epoch() {
    let partition = PartitionId::new(0);
    let mut first = Sequencer::new(1);
    // The first write takes the partition over.
    assert_eq!(first.writing_epoch(partition, 0), Epoch::new(1));
    // Later writes keep the epoch.
    assert_eq!(first.writing_epoch(partition, 40), Epoch::new(1));
    assert_eq!(first.current_epoch(partition), Some(Epoch::new(1)));
    // Another node that has learnt the epochs begins its own, and the
    // epoch of the first node is sealed just before it.
    let mut second = Sequencer::new(2);
    second.adopt(partition, first.get_epoch_store(partition).unwrap());
    assert_eq!(second.writing_epoch(partition, 40), Epoch::new(2));
    assert!(!second.can_write(partition, Epoch::new(1)));
    assert!(second.can_write(partition, Epoch::new(2)));
    let store = second.get_epoch_store(partition).unwrap();
    assert_eq!(store.get_epoch(Epoch::new(1)).unwrap().last_known_offset, Some(39));
    // After its epoch is sealed a node begins the next one.
    assert!(second.seal_epoch(partition, Epoch::new(2), 9));
    assert_eq!(second.writing_epoch(partition, 49), Epoch::invalid());
    assert_eq!(second.writing_epoch(partition, 50), Epoch::new(3));
}
