use bytes::Bytes;
use pyralog::{
    kafka_topic_to_log_id, log_id_to_kafka_topic, AckMode, ConsumeRequest, CreateLogRequest,
    DLogConfig, DLogServer, KafkaApiKey, KafkaApiVersion, KafkaCodec, KafkaErrorCode, LogId,
    LogOffset, Partition, PartitionId, ProduceRecord, ProduceRequest, PyralogClient, PyralogError,
    QuorumConfig, ReplicaSelectionStrategy, Request, Response,
};

fn server_of_five() -> DLogServer {
    let mut config = DLogConfig::default();
    config.node.cluster_nodes = vec![1, 2, 3, 4, 5];
    config.replication.quorum = QuorumConfig::majority(3);
    DLogServer::new(config, vec![]).unwrap()
}

fn orders() -> LogId {
    LogId::new("ns", "orders")
}

fn one(value: &'static str, acks: AckMode) -> ProduceRequest {
    ProduceRequest {
        log_id: orders(),
        partition: None,
        records: vec![ProduceRecord { key: None, value: Bytes::from(value), headers: vec![] }],
        acks,
    }
}

#[test]
fn produce_three_records() {
    let mut server = server_of_five();
    server.create_log(CreateLogRequest { log_id: orders(), partition_count: 3, replication_factor: 3 });
    server.assign_partition(PartitionId::new(0), vec![1, 2, 3]);
    let mut bases = vec![];
    for v in ["a", "b", "c"] {
        let resp = server.produce(one(v, AckMode::Leader)).unwrap();
        assert_eq!(resp.partition, PartitionId::new(0));
        assert!(resp.error.is_none());
        bases.push(resp.base_offset.as_u64());
    }
    assert_eq!(bases, vec![0, 1, 2]);
    let got = server
        .consume(ConsumeRequest {
            log_id: orders(),
            partition: PartitionId::new(0),
            offset: LogOffset::new(0),
            max_records: 10,
            max_bytes: 1 << 20,
        })
        .unwrap();
    assert_eq!(got.high_watermark, LogOffset::new(3));
    assert_eq!(got.records.iter().map(|r| r.value.as_ref()).collect::<Vec<_>>(), vec![b"a", b"b", b"c"]);
    assert_eq!(got.records.iter().map(|r| r.offset.as_u64()).collect::<Vec<_>>(), vec![0, 1, 2]);
    assert_eq!(server.store_count(), 1);
    assert_eq!(server.store(0).storage.high_watermark(), LogOffset::new(3));
    assert_eq!(DLogServer::partition_path(&orders(), PartitionId::new(0)), "ns/orders/partition-0");
    assert_eq!(DLogServer::partition_path(&orders(), PartitionId::new(4294967295)), "ns/orders/partition-4294967295");
    assert_eq!(DLogServer::partition_of_dir("partition-0"), Some(PartitionId::new(0)));
    assert_eq!(DLogServer::partition_of_dir("partition-4294967295"), Some(PartitionId::new(u32::MAX)));
    for bad in ["partition-4294967296", "partition-", "partition", "Partition-1", "partition-1a", "", "xpartition-1"] {
        assert_eq!(DLogServer::partition_of_dir(bad), None);
    }
}

#[test]
fn produce_is_refused_in_order() {
    let mut server = server_of_five();
    assert!(matches!(server.produce(one("a", AckMode::All)), Err(PyralogError::LogNotFound(n)) if n == "ns/orders"));
    server.create_log(CreateLogRequest { log_id: orders(), partition_count: 3, replication_factor: 3 });
    let mut empty = one("a", AckMode::All);
    empty.records.clear();
    assert!(matches!(server.produce(empty), Err(PyralogError::InvalidRequest(m)) if m == "No records in request"));
    assert!(matches!(server.produce(one("a", AckMode::All)), Err(PyralogError::NotLeader(None))));
    server.assign_partition(PartitionId::new(0), vec![2, 1, 3]);
    assert!(matches!(server.produce(one("a", AckMode::All)), Err(PyralogError::NotLeader(Some(2)))));
    assert_eq!(server.cluster().partition_leader(PartitionId::new(0)), Some(2));
    assert_eq!(server.cluster().partition_leader(PartitionId::new(1)), None);
    server.assign_partition(PartitionId::new(2), vec![1]);
    let mut named = one("a", AckMode::NoAck);
    named.partition = Some(PartitionId::new(2));
    named.records.clear();
    assert!(matches!(server.produce(named), Err(PyralogError::InvalidRequest(m)) if m == "No records written"));
    server.create_log(CreateLogRequest { log_id: LogId::new("ns", "none"), partition_count: 0, replication_factor: 1 });
    let mut nowhere = one("a", AckMode::Leader);
    nowhere.log_id = LogId::new("ns", "none");
    assert!(matches!(server.produce(nowhere), Err(PyralogError::PartitionNotFound(0))));
    assert_eq!(server.store_count(), 1);
}

#[test]
fn produce_by_key_and_without_acknowledgement() {
    let mut server = server_of_five();
    server.create_log(CreateLogRequest { log_id: orders(), partition_count: 4, replication_factor: 3 });
    for p in 0..4 {
        server.assign_partition(PartitionId::new(p), vec![1, 2, 3]);
    }
    let keyed = |v: &'static str| ProduceRequest {
        log_id: orders(),
        partition: None,
        records: vec![
            ProduceRecord { key: Some(Bytes::from("K")), value: Bytes::from(v), headers: vec![("h".to_string(), Bytes::from("1"))] },
            ProduceRecord { key: Some(Bytes::from("other")), value: Bytes::from(v), headers: vec![] },
        ],
        acks: AckMode::NoAck,
    };
    let first = server.produce(keyed("x")).unwrap();
    let second = server.produce(keyed("y")).unwrap();
    assert_eq!(first.partition, second.partition);
    assert_eq!((first.base_offset.as_u64(), second.base_offset.as_u64()), (0, 2));
    let ask = ConsumeRequest { log_id: orders(), partition: first.partition, offset: LogOffset::new(0), max_records: 3, max_bytes: 1 << 20 };
    // Without acknowledgement the records may still wait in the cache.
    let before = server.consume(ask.clone()).unwrap();
    assert_eq!(before.high_watermark, LogOffset::new(4));
    assert!(before.records.len() <= 3);
    let mut flush = keyed("z");
    flush.acks = AckMode::All;
    flush.partition = Some(first.partition);
    assert_eq!(server.produce(flush).unwrap().base_offset, LogOffset::new(4));
    let after = server.consume(ask).unwrap();
    assert_eq!(after.records.len(), 3);
    assert_eq!(after.records[0].key.as_ref().unwrap().as_ref(), b"K");
    assert_eq!(after.records[0].headers[0].key, "h");
    assert_eq!(after.records[1].key.as_ref().unwrap().as_ref(), b"other");
    assert_eq!(after.records[2].value.as_ref(), b"y");
    let other = PartitionId::new((first.partition.as_u32() + 1) % 4);
    let none = server.consume(ConsumeRequest { log_id: orders(), partition: other, offset: LogOffset::new(0), max_records: 3, max_bytes: 10 }).unwrap();
    assert!(none.records.is_empty());
    assert_eq!(none.high_watermark, LogOffset::new(0));
}

#[test]
fn logs_are_registered_and_listed() {
    let mut server = server_of_five();
    assert!(server.list_logs().is_empty());
    server.create_log(CreateLogRequest { log_id: orders(), partition_count: 3, replication_factor: 3 });
    server.create_log(CreateLogRequest { log_id: LogId::new("ns", "clicks"), partition_count: 1, replication_factor: 1 });
    server.create_log(CreateLogRequest { log_id: orders(), partition_count: 8, replication_factor: 3 });
    assert_eq!(server.list_logs(), vec![orders(), LogId::new("ns", "clicks")]);
    assert_eq!(server.cluster().get_log(&orders()).unwrap().partition_count, 8);
    assert!(server.cluster().get_log(&LogId::new("x", "orders")).is_none());
    assert!(server.delete_log(&orders()));
    assert!(!server.delete_log(&orders()));
    assert_eq!(server.list_logs(), vec![LogId::new("ns", "clicks")]);
    assert_eq!(server.cluster().node_id(), 1);
    assert!(server.cluster().get_partition_nodes(PartitionId::new(0)).is_none());
    server.assign_partition(PartitionId::new(0), vec![3, 1]);
    assert_eq!(server.cluster().get_partition_nodes(PartitionId::new(0)), Some(vec![3, 1]));
    assert!(!server.cluster().is_partition_leader(PartitionId::new(0)));
    assert!(!server.cluster().raft().is_leader());
}

#[test]
fn kafka_names_and_codes() {
    let id = kafka_topic_to_log_id("orders");
    assert_eq!(id, LogId::new("kafka", "orders"));
    assert_eq!(log_id_to_kafka_topic(&id), "orders");
    assert_eq!(log_id_to_kafka_topic(&LogId::new("ns", "orders")), "ns.orders");
    assert_eq!(LogId::new("ns", "orders").to_text(), "ns/orders");
    assert_eq!(KafkaApiKey::Produce.code(), 0);
    assert_eq!(KafkaApiKey::Metadata.code(), 3);
    assert_eq!(KafkaApiKey::DeleteTopics.code(), 20);
    assert_eq!(KafkaErrorCode::NoError.code(), 0);
    assert_eq!(KafkaErrorCode::NotEnoughReplicasAfterAppend.code(), 20);
    let table = [
        (PyralogError::InvalidOffset(3), KafkaErrorCode::OffsetOutOfRange, 1),
        (PyralogError::LogNotFound("x".to_string()), KafkaErrorCode::UnknownTopicOrPartition, 3),
        (PyralogError::LeaderNotAvailable, KafkaErrorCode::LeaderNotAvailable, 5),
        (PyralogError::NotLeader(Some(2)), KafkaErrorCode::NotLeaderForPartition, 6),
        (PyralogError::Timeout, KafkaErrorCode::RequestTimedOut, 7),
        (PyralogError::QuorumNotAvailable, KafkaErrorCode::NotEnoughReplicas, 19),
        (PyralogError::StorageError("x".to_string()), KafkaErrorCode::NetworkException, 13),
        (PyralogError::PartitionNotFound(1), KafkaErrorCode::NetworkException, 13),
    ];
    for (e, want, code) in table.iter() {
        assert_eq!(KafkaErrorCode::from_error(e), *want);
        assert_eq!(want.code(), *code);
    }
    assert_eq!(KafkaCodec::new(KafkaApiVersion::V2).version(), KafkaApiVersion::V2);
}

#[test]
fn default_configuration() {
    let c = DLogConfig::default();
    assert_eq!((c.node.node_id, c.node.data_dir.as_str(), &c.node.cluster_nodes), (1, "./data", &vec![1]));
    assert_eq!(c.storage.segment_config.max_size, 1 << 30);
    assert!(c.storage.segment_config.use_mmap && !c.storage.segment_config.sync_on_write);
    assert_eq!((c.storage.cache_config.max_size, c.storage.cache_config.max_buffer_time_ms, c.storage.cache_config.enabled), (16 << 20, 10, true));
    assert_eq!((c.replication.max_in_flight, c.replication.retry_attempts, c.replication.timeout_ms), (1000, 3, 5000));
    assert_eq!((c.network.listen_address.as_str(), c.network.internal_address.as_str()), ("0.0.0.0:9092", "0.0.0.0:9093"));
    assert_eq!((c.network.max_connections, c.network.request_timeout_ms), (10000, 30000));
    assert!(c.validate().is_ok());
    let mut bad = c.clone();
    bad.replication.quorum = QuorumConfig { replication_factor: 3, write_quorum: 1, read_quorum: 1, selection_strategy: ReplicaSelectionStrategy::Random };
    match bad.validate() {
        Err(PyralogError::ConfigError(m)) => assert_eq!(m, "Read and write quorums must overlap for consistency"),
        _ => panic!("quorums that do not overlap were taken"),
    }
}

#[test]
fn client_builds_requests() {
    let client = PyralogClient::new("127.0.0.1:9092");
    assert_eq!(client.address(), "127.0.0.1:9092");
    let p = client.produce(orders(), Some(Bytes::from("k")), Bytes::from("v"));
    assert_eq!((p.log_id.clone(), p.partition, p.acks, p.records.len()), (orders(), None, AckMode::Leader, 1));
    assert_eq!(p.records[0].key.as_ref().unwrap().as_ref(), b"k");
    assert_eq!(Request::Produce(p).tag(), 0);
    let b = client.produce_batch(orders(), vec![(None, Bytes::from("a")), (Some(Bytes::from("k")), Bytes::from("b"))]);
    assert_eq!(b.records.len(), 2);
    assert!(b.records[0].key.is_none());
    assert_eq!(b.records[1].value.as_ref(), b"b");
    let c = client.consume(orders(), PartitionId::new(2), LogOffset::new(5), 10);
    assert_eq!((c.partition, c.offset, c.max_records, c.max_bytes), (PartitionId::new(2), LogOffset::new(5), 10, 1024 * 1024));
    assert_eq!(Request::Consume(c).tag(), 1);
    let l = client.create_log(orders(), 3, 2);
    assert_eq!((l.partition_count, l.replication_factor), (3, 2));
    assert_eq!(Request::CreateLog(l).tag(), 2);
    assert_eq!(Request::DeleteLog(orders()).tag(), 3);
    assert_eq!(Request::ListLogs.tag(), 4);
    assert_eq!(Response::Error("x".to_string()).tag(), 5);
    assert!(Response::Error("x".to_string()).is_error());
    assert!(!Response::CreateLog(Ok(())).is_error());
    assert!(Response::DeleteLog(Err(PyralogError::Timeout)).is_error());
    assert!(!Response::ListLogs(Ok(vec![])).is_error());
}

#[test]
fn partition_value() {
    let mut p = Partition::new(orders(), PartitionId::new(3));
    assert_eq!(p.partition_id.as_u32(), 3);
    assert!(!p.is_leader(1));
    assert!(!p.is_replica(1));
    p.leader_node = Some(1);
    p.replica_nodes = vec![1, 2];
    assert!(p.is_leader(1) && !p.is_leader(2));
    assert!(p.is_replica(2) && !p.is_replica(3));
    assert_eq!((p.low_watermark, p.high_watermark), (LogOffset::zero(), LogOffset::zero()));
}

fn leading_server() -> DLogServer {
    let mut server = server_of_five();
    server.create_log(CreateLogRequest { log_id: orders(), partition_count: 3, replication_factor: 3 });
    server.assign_partition(PartitionId::new(0), vec![1, 2, 3]);
    server
}

fn read_all(server: &mut DLogServer) -> Vec<pyralog::Record> {
    server
        .consume(ConsumeRequest {
            log_id: orders(),
            partition: PartitionId::new(0),
            offset: LogOffset::new(0),
            max_records: 100,
            max_bytes: 1 << 20,
        })
        .unwrap()
        .records
}

#[test]
fn produced_records_carry_the_epoch_of_the_leader() {
    let partition = PartitionId::new(0);
    let mut server = leading_server();
    assert_eq!(server.sequencer().current_epoch(partition), None);
    for v in ["a", "b", "c"] {
        server.produce(one(v, AckMode::Leader)).unwrap();
    }
    // The first write began epoch 1 at the start of the log.
    assert_eq!(server.sequencer().current_epoch(partition), Some(pyralog::Epoch::new(1)));
    assert!(server.sequencer().can_write(partition, pyralog::Epoch::new(1)));
    // Once the epoch is sealed at the last record, the next write begins
    // epoch 2 behind it.
    assert!(server.sequencer_mut().seal_epoch(partition, pyralog::Epoch::new(1), 2));
    let resp = server.produce(one("d", AckMode::Leader)).unwrap();
    assert_eq!(resp.base_offset, LogOffset::new(3));
    let epochs: Vec<u64> = read_all(&mut server).iter().map(|r| r.epoch.as_u64()).collect();
    assert_eq!(epochs, vec![1, 1, 1, 2]);
    let store = server.sequencer().get_epoch_store(partition).unwrap();
    assert_eq!(store.get_epoch(pyralog::Epoch::new(2)).unwrap().start_offset, 3);
    assert_eq!(store.to_epoch_offset(3).unwrap().epoch, pyralog::Epoch::new(2));
    assert_eq!(store.to_epoch_offset(2).unwrap().epoch, pyralog::Epoch::new(1));
}

#[test]
fn no_epoch_no_leader() {
    let partition = PartitionId::new(0);
    let mut server = leading_server();
    server.produce(one("a", AckMode::Leader)).unwrap();
    // An epoch that is sealed beyond the end of the log leaves no place for
    // the next one to begin.
    assert!(server.sequencer_mut().seal_epoch(partition, pyralog::Epoch::new(1), 5));
    assert!(matches!(server.produce(one("b", AckMode::Leader)), Err(PyralogError::LeaderNotAvailable)));
    assert_eq!(server.store(0).storage.high_watermark(), LogOffset::new(1));
    assert_eq!(server.sequencer().current_epoch(partition), Some(pyralog::Epoch::new(1)));
}

#[test]
fn records_are_made_at_the_time_handed_in() {
    let mut server = leading_server();
    let now = std::time::UNIX_EPOCH + std::time::Duration::from_secs(1_700_000_000);
    let mut request = one("a", AckMode::Leader);
    request.records.push(ProduceRecord {
        key: Some(Bytes::from("k")),
        value: Bytes::from("b"),
        headers: vec![("h".to_string(), Bytes::from("x"))],
    });
    let resp = server.produce_at(request, now).unwrap();
    assert_eq!(resp.base_offset, LogOffset::new(0));
    let records = read_all(&mut server);
    assert_eq!(records.len(), 2);
    for (i, r) in records.iter().enumerate() {
        assert_eq!(r.timestamp, now);
        assert_eq!(r.offset, LogOffset::new(i as u64));
        assert_eq!(r.epoch, pyralog::Epoch::new(1));
    }
    assert_eq!(records[1].key.as_deref(), Some(&b"k"[..]));
    assert_eq!(records[1].headers.len(), 1);
    assert_eq!(records[1].headers[0].key, "h");
    // A time before the epoch of the clock does not encode: the record is
    // refused and the log stays as it is.
    let before = std::time::UNIX_EPOCH - std::time::Duration::from_secs(1);
    let r = server.produce_at(one("c", AckMode::Leader), before);
    assert!(matches!(r, Err(PyralogError::SerializationError(_))));
    assert_eq!(server.store(0).storage.high_watermark(), LogOffset::new(2));
}

#[test]
fn a_refused_record_ends_the_request_and_keeps_the_ones_before_it() {
    let mut config = DLogConfig::default();
    config.node.cluster_nodes = vec![1, 2, 3];
    config.storage.segment_config.max_size = 100;
    config.storage.cache_config.enabled = false;
    let mut server = DLogServer::new(config, vec![]).unwrap();
    server.create_log(CreateLogRequest { log_id: orders(), partition_count: 1, replication_factor: 3 });
    server.assign_partition(PartitionId::new(0), vec![1]);
    let small = |v: &'static str| ProduceRecord { key: None, value: Bytes::from(v), headers: vec![] };
    let big = ProduceRecord { key: None, value: Bytes::from(vec![0u8; 200]), headers: vec![] };
    let request = ProduceRequest {
        log_id: orders(),
        partition: None,
        records: vec![small("a"), small("b"), big, small("c")],
        acks: AckMode::Leader,
    };
    assert!(matches!(server.produce(request), Err(PyralogError::StorageError(_))));
    assert_eq!(server.store(0).storage.high_watermark(), LogOffset::new(2));
    let values: Vec<Vec<u8>> = read_all(&mut server).iter().map(|r| r.value.to_vec()).collect();
    assert_eq!(values, vec![b"a".to_vec(), b"b".to_vec()]);
}

#[test]
fn an_answer_for_all_waits_for_the_write_quorum() {
    let partition = PartitionId::new(0);
    let mut server = leading_server();
    let resp = server.produce(one("a", AckMode::All)).unwrap();
    assert_eq!(resp.partition, partition);
    let last = LogOffset::new(0);
    assert!(server.acknowledged(partition, AckMode::NoAck, last));
    assert!(server.acknowledged(partition, AckMode::Leader, last));
    // Without a copyset there is no quorum.
    assert!(!server.acknowledged(partition, AckMode::All, last));
    let copyset = server.replication_mut().get_copyset(partition).unwrap();
    assert_eq!(copyset.nodes.len(), 3);
    assert!(!server.acknowledged(partition, AckMode::All, last));
    server.replication_mut().update_progress(copyset.nodes[0], last);
    assert!(!server.acknowledged(partition, AckMode::All, last));
    // A node outside the copyset does not count.
    let stranger = (1..=5u64).find(|n| !copyset.nodes.contains(n)).unwrap();
    server.replication_mut().update_progress(stranger, LogOffset::new(9));
    assert!(!server.acknowledged(partition, AckMode::All, last));
    server.replication_mut().update_progress(copyset.nodes[2], LogOffset::new(4));
    assert!(server.acknowledged(partition, AckMode::All, last));
    assert!(!server.acknowledged(partition, AckMode::All, LogOffset::new(1)));
    assert!(!server.acknowledged(PartitionId::new(1), AckMode::All, last));
    assert!(server.replication().copyset_reached(partition, last));
}

#[test]
fn a_server_is_refused_with_the_state_file_of_its_node() {
    assert!(matches!(
        DLogServer::new(DLogConfig::default(), vec![1, 2, 3]),
        Err(PyralogError::SerializationError(_))
    ));
    let server = DLogServer::new(DLogConfig::default(), vec![]).unwrap();
    assert_eq!(server.store_count(), 0);
    assert_eq!(server.cluster().raft().state().persistent.current_term, 0);
    assert_eq!(server.replication().committed_offset(), LogOffset::new(0));
    assert_eq!(server.sequencer().current_epoch(PartitionId::new(0)), None);
}
