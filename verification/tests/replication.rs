use bytes::Bytes;
use pyralog::{
    LogOffset, PartitionId, PyralogError, QuorumConfig, Record, RecordBatch, ReplicationConfig,
    ReplicationManager, SyncManager,
};

#[test]
fn test_replication_manager() {
    let config = ReplicationConfig::default();
    let nodes = vec![1, 2, 3, 4, 5];
    let mut manager = ReplicationManager::new(config, nodes);

    let copyset = manager.get_copyset(PartitionId::new(0)).unwrap();
    assert_eq!(copyset.size(), 3);
}

#[test]
fn test_sync_manager() {
    let mut manager = SyncManager::new();

    manager.update_offset(1, LogOffset::new(100));
    manager.update_offset(2, LogOffset::new(50));
    manager.update_offset(3, LogOffset::new(75));

    assert_eq!(manager.get_committed_offset(), LogOffset::new(50));
    assert_eq!(manager.get_high_watermark(), LogOffset::new(100));

    assert_eq!(manager.get_lag(2), Some(50));
}

fn batch_ending_at(last: u64) -> RecordBatch {
    let record = Record::new(None, Bytes::from("v")).with_offset(LogOffset::new(last));
    RecordBatch::new(LogOffset::new(last), vec![record])
}

#[test]
fn copyset_is_kept_per_partition() {
    let mut manager = ReplicationManager::new(ReplicationConfig::default(), vec![1, 2, 3, 4, 5, 6, 7]);
    let first = manager.get_copyset(PartitionId::new(4)).unwrap();
    for _ in 0..20 {
        let again = manager.get_copyset(PartitionId::new(4)).unwrap();
        assert_eq!(again.nodes, first.nodes);
        assert_eq!(again.leader, first.leader);
    }
    let mut small = ReplicationManager::new(ReplicationConfig::default(), vec![1, 2]);
    assert!(small.get_copyset(PartitionId::new(0)).is_none());
    assert!(matches!(
        small.replication_status(PartitionId::new(3)),
        Err(PyralogError::PartitionNotFound(3))
    ));
    assert!(matches!(
        small.replicate(&batch_ending_at(1), &vec![1, 2]),
        Err(PyralogError::ReplicationError(_))
    ));
}

#[test]
fn write_quorum_counts_distinct_copyset_nodes() {
    let mut config = ReplicationConfig::default();
    config.quorum = QuorumConfig::majority(3);
    let mut manager = ReplicationManager::new(config, vec![1, 2, 3]);
    let nodes = vec![1, 2, 3];
    let p = PartitionId::new(0);
    // One node twice and a stranger are one acknowledgement.
    let r = manager.replicate_to_nodes(p, &batch_ending_at(9), &nodes, &vec![2, 2, 9]);
    assert!(matches!(r, Err(PyralogError::QuorumNotAvailable)));
    assert_eq!(manager.sync_manager().get_offset(2), Some(LogOffset::new(9)));
    assert_eq!(manager.sync_manager().get_offset(9), None);
    let r = manager.replicate_to_nodes(p, &batch_ending_at(10), &nodes, &vec![3, 1]);
    assert!(r.is_ok());
    assert_eq!(manager.sync_manager().get_offset(1), Some(LogOffset::new(10)));
    assert_eq!(manager.sync_manager().get_offset(3), Some(LogOffset::new(10)));
    assert_eq!(manager.sync_manager().get_offset(2), Some(LogOffset::new(9)));
    assert_eq!(manager.quorum_committed_offset(&nodes), LogOffset::new(10));
    // Two of the three nodes have reached offset 10: the third does not
    // hold the committed offset back.
    assert_eq!(manager.committed_offset(), LogOffset::new(10));
    assert!(manager.replication_reached(LogOffset::new(10)));
    assert!(!manager.replication_reached(LogOffset::new(11)));
    // An empty batch moves no offsets but still counts acknowledgements.
    let empty = RecordBatch::new(LogOffset::new(0), vec![]);
    assert!(manager.replicate_to_nodes(p, &empty, &nodes, &vec![1, 2]).is_ok());
    assert_eq!(manager.sync_manager().get_offset(2), Some(LogOffset::new(9)));
}

#[test]
fn lagging_replica_leaves_the_in_sync_set() {
    // Five nodes, three copies, write quorum two.
    let mut manager = ReplicationManager::new(ReplicationConfig::default(), vec![1, 2, 3, 4, 5]);
    let copyset = vec![1, 2, 3];
    manager.update_progress(1, LogOffset::new(5000));
    manager.update_progress(2, LogOffset::new(4500));
    manager.update_progress(3, LogOffset::new(3000));
    assert_eq!(manager.get_in_sync_replicas(1000), vec![1, 2]);
    assert_eq!(manager.quorum_committed_offset(&copyset), LogOffset::new(4500));
    // The leader moves on; the committed offset stays with the second.
    manager.update_progress(1, LogOffset::new(9000));
    assert_eq!(manager.quorum_committed_offset(&copyset), LogOffset::new(4500));
    assert_eq!(manager.get_in_sync_replicas(1000), vec![1]);
    // The laggard catches up and counts again.
    manager.update_progress(3, LogOffset::new(8500));
    assert_eq!(manager.get_in_sync_replicas(1000), vec![1, 3]);
    assert_eq!(manager.quorum_committed_offset(&copyset), LogOffset::new(8500));
}

#[test]
fn replication_status_reports_the_copyset() {
    let mut manager = ReplicationManager::new(ReplicationConfig::default(), vec![1, 2, 3]);
    let p = PartitionId::new(0);
    let cs = manager.get_copyset(p).unwrap();
    assert_eq!(cs.nodes, vec![1, 2, 3]);
    let followers: Vec<u64> = cs.nodes.iter().copied().filter(|n| *n != cs.leader).collect();
    manager.update_progress(cs.leader, LogOffset::new(70));
    manager.update_progress(followers[0], LogOffset::new(60));
    let st = manager.replication_status(p).unwrap();
    assert_eq!(st.partition, p);
    assert_eq!(st.leader_offset, LogOffset::new(70));
    assert_eq!(st.follower_offsets, vec![(followers[0], LogOffset::new(60))]);
    assert_eq!(st.in_sync_replicas, vec![cs.leader, followers[0]]);
}

#[test]
fn sync_manager_answers() {
    let mut manager = SyncManager::new();
    assert_eq!(manager.get_committed_offset(), LogOffset::new(0));
    assert_eq!(manager.get_high_watermark(), LogOffset::new(0));
    assert_eq!(manager.get_lag(1), None);
    assert_eq!(manager.get_offset(1), None);
    assert!(manager.get_in_sync_nodes(0).is_empty());
    manager.update_offset(7, LogOffset::new(10));
    manager.update_offset(8, LogOffset::new(30));
    manager.update_offset(7, LogOffset::new(20));
    assert_eq!(manager.known_nodes(), &vec![7, 8]);
    assert_eq!(manager.get_offset(7), Some(LogOffset::new(20)));
    assert_eq!(manager.get_lag(7), Some(10));
    assert_eq!(manager.get_lag(8), Some(0));
    assert_eq!(manager.get_in_sync_nodes(9), vec![8]);
    assert_eq!(manager.get_in_sync_nodes(10), vec![7, 8]);
    assert!(manager.offset_reached(7, LogOffset::new(20)));
    assert!(!manager.offset_reached(7, LogOffset::new(21)));
    assert!(!manager.offset_reached(9, LogOffset::new(0)));
}

#[test]
fn quorum_is_reached_when_the_last_needed_node_crosses() {
    let mut manager = SyncManager::new();
    let nodes = vec![1, 2, 3];
    let target = LogOffset::new(100);
    assert!(manager.quorum_reached(&nodes, target, 0));
    assert!(!manager.quorum_reached(&nodes, target, 2));
    manager.update_offset(1, LogOffset::new(100));
    assert!(manager.quorum_reached(&nodes, target, 1));
    assert!(!manager.quorum_reached(&nodes, target, 2));
    manager.update_offset(2, LogOffset::new(99));
    assert!(!manager.quorum_reached(&nodes, target, 2));
    manager.update_offset(9, LogOffset::new(500));
    assert!(!manager.quorum_reached(&nodes, target, 2));
    manager.update_offset(2, LogOffset::new(100));
    assert!(manager.quorum_reached(&nodes, target, 2));
    assert!(!manager.quorum_reached(&nodes, target, 3));
}

#[test]
fn quorum_committed_offset_is_the_wth_largest() {
    let mut manager = SyncManager::new();
    manager.update_offset(1, LogOffset::new(40));
    manager.update_offset(2, LogOffset::new(10));
    manager.update_offset(3, LogOffset::new(30));
    let nodes = vec![1, 2, 3, 4];
    assert_eq!(manager.quorum_committed_offset(&nodes, 1), LogOffset::new(40));
    assert_eq!(manager.quorum_committed_offset(&nodes, 2), LogOffset::new(30));
    assert_eq!(manager.quorum_committed_offset(&nodes, 3), LogOffset::new(10));
    assert_eq!(manager.quorum_committed_offset(&nodes, 4), LogOffset::new(0));
    assert_eq!(manager.quorum_committed_offset(&nodes, 5), LogOffset::new(0));
    assert_eq!(manager.quorum_committed_offset(&nodes, 0), LogOffset::new(0));
    assert_eq!(manager.quorum_committed_offset(&vec![], 1), LogOffset::new(0));
}

#[test]
fn committed_offset_is_not_held_back_by_a_laggard() {
    // Three copies, write quorum two.
    let mut manager = ReplicationManager::new(ReplicationConfig::default(), vec![1, 2, 3, 4, 5]);
    assert_eq!(manager.committed_offset(), LogOffset::new(0));
    manager.update_progress(1, LogOffset::new(5000));
    // One node is no quorum.
    assert_eq!(manager.committed_offset(), LogOffset::new(0));
    manager.update_progress(2, LogOffset::new(4500));
    manager.update_progress(3, LogOffset::new(3000));
    assert_eq!(manager.committed_offset(), LogOffset::new(4500));
    manager.update_progress(1, LogOffset::new(9000));
    assert_eq!(manager.committed_offset(), LogOffset::new(4500));
    manager.update_progress(3, LogOffset::new(8500));
    assert_eq!(manager.committed_offset(), LogOffset::new(8500));
}

#[test]
fn a_cluster_too_small_for_a_copyset_is_a_replication_error() {
    let batch = RecordBatch::new(LogOffset::new(0), vec![Record::new(None, Bytes::from("a"))]);
    let mut small = ReplicationManager::new(ReplicationConfig::default(), vec![1, 2]);
    assert!(matches!(small.replicate(&batch, &vec![1, 2]), Err(PyralogError::ReplicationError(_))));
    assert!(small.sync_manager().get_offset(1).is_none());
    let mut enough = ReplicationManager::new(ReplicationConfig::default(), vec![1, 2, 3]);
    assert!(matches!(enough.replicate(&batch, &vec![1]), Err(PyralogError::QuorumNotAvailable)));
    assert!(enough.replicate(&batch, &vec![1, 3]).is_ok());
}

#[test]
fn a_batch_without_quorum_is_sent_again_as_often_as_allowed() {
    let mut config = ReplicationConfig::default();
    config.retry_attempts = 3;
    assert!(!config.sends_again(1, true));
    assert!(config.sends_again(1, false));
    assert!(config.sends_again(3, false));
    assert!(!config.sends_again(4, false));
    assert!(!config.sends_again(4, true));
    config.retry_attempts = 0;
    assert!(!config.sends_again(1, false));
}
