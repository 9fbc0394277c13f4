use bytes::Bytes;
use pyralog::{
    Epoch, LogOffset, LogStorage, LogStorageConfig, OffsetRange, PartitionId, QuorumConfig,
    Record, RecordBatch, ReplicationConfig, ReplicationManager, Sequencer,
};

#[test]
fn thousand_records_survive_a_failover() {
    let partition = PartitionId::new(0);
    let nodes = vec![1u64, 2, 3];
    let mut config = ReplicationConfig::default();
    config.quorum = QuorumConfig { write_quorum: 2, read_quorum: 2, ..QuorumConfig::majority(3) };
    assert!(config.quorum.validate().is_ok());

    // Node 1 leads under epoch 1.
    let mut old_leader = Sequencer::new(1);
    let epoch1 = old_leader.activate(partition, 0);
    assert_eq!(epoch1, Epoch::new(1));
    let mut leader_log = LogStorage::create(LogStorageConfig::default());
    let mut follower_log = LogStorage::create(LogStorageConfig::default());
    let mut replication = ReplicationManager::new(config, nodes.clone());
    for i in 0..1000u64 {
        let record = Record::new(Some(Bytes::from("K")), Bytes::from(i.to_string())).with_epoch(epoch1);
        let offset = leader_log.append(record.duplicate()).unwrap();
        assert_eq!(offset, LogOffset::new(i));
        // The batch goes to the copyset; the leader and node 2 acknowledge.
        let batch = RecordBatch::new(offset, vec![record.duplicate().with_offset(offset)]).with_epoch(epoch1);
        assert_eq!(follower_log.append_batch(RecordBatch::new(offset, vec![record])).unwrap(), offset);
        assert!(replication.replicate_to_nodes(partition, &batch, &nodes, &vec![1, 2]).is_ok());
    }
    assert_eq!(replication.quorum_committed_offset(&nodes), LogOffset::new(999));

    // Node 1 dies. Node 2 learns the epochs, seals epoch 1 and takes over.
    let mut new_leader = Sequencer::new(2);
    new_leader.adopt(partition, old_leader.get_epoch_store(partition).unwrap());
    assert!(new_leader.seal_epoch(partition, epoch1, 999));
    assert!(!new_leader.can_write(partition, epoch1));
    let epoch2 = new_leader.activate(partition, 1000);
    assert_eq!(epoch2, Epoch::new(2));
    assert!(new_leader.can_write(partition, epoch2));
    let store = new_leader.get_epoch_store(partition).unwrap();
    assert_eq!(store.epoch_for_offset(999), Some(epoch1));
    assert_eq!(store.epoch_for_offset(1000), Some(epoch2));

    // A consumer reads everything from the new leader, in order.
    follower_log.flush();
    let all = follower_log.read_range(OffsetRange::new(LogOffset::new(0), LogOffset::new(1000))).unwrap();
    assert_eq!(all.len(), 1000);
    for (i, r) in all.iter().enumerate() {
        assert_eq!(r.offset, LogOffset::new(i as u64));
        assert_eq!(r.epoch, epoch1);
        assert_eq!(r.key.as_ref().unwrap().as_ref(), b"K");
        assert_eq!(r.value.as_ref(), i.to_string().as_bytes());
    }
    let next = follower_log.append(Record::new(Some(Bytes::from("K")), Bytes::from("more")).with_epoch(epoch2)).unwrap();
    assert_eq!(next, LogOffset::new(1000));
}
