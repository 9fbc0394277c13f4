use pyralog::{Epoch, EpochMetadata, EpochOffset, LogConfig, LogId, LogMetadata, LogOffset, PartitionId, PyralogError, RetentionPolicy};

#[test]
fn values_as_text() {
    assert_eq!(Epoch::new(7).to_text(), "e7");
    assert_eq!(EpochOffset::new(Epoch::new(7), 42).to_text(), "e7:42");
    assert_eq!(LogOffset::new(0).to_text(), "0");
    assert_eq!(LogOffset::max().to_text(), "18446744073709551615");
    assert_eq!(PartitionId::new(12).to_text(), "12");
    assert_eq!(LogId::new("ns", "orders").to_text(), "ns/orders");
}

#[test]
fn values_from_numbers() {
    assert_eq!(LogOffset::from(9), LogOffset::new(9));
    assert_eq!(Epoch::from(3), Epoch::new(3));
    assert_eq!(PartitionId::from(4), PartitionId::new(4));
    let o: LogOffset = 5u64.into();
    assert_eq!(o.as_u64(), 5);
}

#[test]
fn error_texts() {
    let table = [
        (PyralogError::LogNotFound("ns/orders".to_string()), "Log not found: ns/orders"),
        (PyralogError::PartitionNotFound(3), "Partition not found: 3"),
        (PyralogError::InvalidOffset(18446744073709551615), "Invalid offset: 18446744073709551615"),
        (PyralogError::StorageError("Segment is full".to_string()), "Storage error: Segment is full"),
        (PyralogError::ConsensusError("x".to_string()), "Consensus error: x"),
        (PyralogError::ReplicationError("x".to_string()), "Replication error: x"),
        (PyralogError::SerializationError("x".to_string()), "Serialization error: x"),
        (PyralogError::NetworkError("x".to_string()), "Network error: x"),
        (PyralogError::ConfigError("x".to_string()), "Configuration error: x"),
        (PyralogError::LeaderNotAvailable, "Leader not available"),
        (PyralogError::NotLeader(None), "Not leader: current leader is None"),
        (PyralogError::NotLeader(Some(12)), "Not leader: current leader is Some(12)"),
        (PyralogError::QuorumNotAvailable, "Quorum not available"),
        (PyralogError::Timeout, "Operation timeout"),
        (PyralogError::InvalidRequest("".to_string()), "Invalid request: "),
        (PyralogError::IoError("disk".to_string()), "IO error: disk"),
    ];
    for (e, want) in table.iter() {
        assert_eq!(e.to_text(), *want);
    }
}

#[test]
fn metadata_values() {
    let mut m = EpochMetadata::new(Epoch::new(2), 5, 100);
    assert_eq!((m.current_epoch, m.sequencer_node, m.start_offset, m.sealed, m.last_known_offset), (Epoch::new(2), 5, 100, false, None));
    assert!(m.can_write());
    m.seal(9);
    assert!(!m.can_write());
    assert_eq!(m.last_known_offset, Some(9));
    let c = LogConfig::default();
    assert_eq!((c.segment_size, c.flush_interval_ms, c.compression_enabled, c.tiered_storage_enabled), (1 << 30, 1000, true, false));
    let meta = LogMetadata { id: LogId::new("a", "b"), partition_count: 2, replication_factor: 3, retention_policy: RetentionPolicy::TimeAndSize { time_seconds: 1, size_bytes: 2 }, config: c };
    let d = meta.duplicate();
    assert_eq!((d.id.clone(), d.partition_count, d.replication_factor, d.retention_policy, d.config), (LogId::new("a", "b"), 2, 3, meta.retention_policy, c));
    assert!(meta.id.same_as(&d.id));
    assert!(!meta.id.same_as(&LogId::new("a", "c")));
}
