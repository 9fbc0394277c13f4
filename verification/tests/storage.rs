use bytes::Bytes;
use pyralog::{
    Epoch, LogOffset, LogStorage, LogStorageConfig, OffsetRange, PyralogError, Record,
    RecordBatch, SegmentConfig, SegmentFile, WriteCache, WriteCacheConfig,
};
use pyralog::storage::write_cache::CachedRecord;

fn config(max_size: u64, cache: bool) -> LogStorageConfig {
    LogStorageConfig {
        segment_config: SegmentConfig { max_size, use_mmap: false, sync_on_write: false },
        cache_config: WriteCacheConfig { max_size: 1 << 20, max_buffer_time_ms: 60_000, enabled: cache },
    }
}

fn record(value: &[u8]) -> Record {
    Record::new(None, Bytes::copy_from_slice(value)).with_epoch(Epoch::new(1))
}

#[test]
fn append_assigns_consecutive_offsets() {
    for cache in [false, true] {
        let mut log = LogStorage::create(config(1 << 20, cache));
        assert_eq!(log.high_watermark(), LogOffset::new(0));
        for i in 0..10u64 {
            assert_eq!(log.append(record(&[i as u8; 3])).unwrap(), LogOffset::new(i));
            assert_eq!(log.high_watermark(), LogOffset::new(i + 1));
        }
        log.flush();
        assert_eq!(log.pending_count(), 0);
        for i in 0..10u64 {
            let r = log.read(LogOffset::new(i)).unwrap().unwrap();
            assert_eq!(r.offset, LogOffset::new(i));
            assert_eq!(r.epoch, Epoch::new(1));
            assert_eq!(r.value.as_ref(), &[i as u8; 3]);
        }
    }
}

#[test]
fn read_at_the_high_watermark_finds_nothing() {
    let mut log = LogStorage::create(config(1 << 20, false));
    assert!(log.read(LogOffset::new(0)).unwrap().is_none());
    log.append(record(b"a")).unwrap();
    log.append(record(b"b")).unwrap();
    let hw = log.high_watermark();
    assert_eq!(hw, LogOffset::new(2));
    assert!(log.read(hw).unwrap().is_none());
    assert!(log.read(LogOffset::max()).unwrap().is_none());
    assert_eq!(log.read(hw.prev().unwrap()).unwrap().unwrap().value.as_ref(), b"b");
}

#[test]
fn cached_records_are_read_after_the_flush() {
    let mut log = LogStorage::create(config(1 << 20, true));
    log.append(record(b"a")).unwrap();
    assert_eq!(log.pending_count(), 1);
    assert!(log.read(LogOffset::new(0)).unwrap().is_none());
    assert_eq!(log.high_watermark(), LogOffset::new(1));
    log.flush();
    assert_eq!(log.read(LogOffset::new(0)).unwrap().unwrap().value.as_ref(), b"a");
}

#[test]
fn full_segment_rolls() {
    // A record without key and headers takes 45 bytes besides its value.
    let mut log = LogStorage::create(config(1024, false));
    for i in 0..3u64 {
        assert_eq!(log.append(record(&[1u8; 255])).unwrap(), LogOffset::new(i));
        assert_eq!(log.segment_count(), 1);
    }
    assert_eq!(log.segment(0).segment.size(), 900);
    let first = log.segment(0).segment.bytes().to_vec();
    assert_eq!(log.append(record(&[2u8; 255])).unwrap(), LogOffset::new(3));
    assert_eq!(log.segment_count(), 2);
    assert_eq!(log.segment(1).segment.path(), "00000000000000000003.log");
    assert_eq!(log.segment(1).segment.base_offset(), LogOffset::new(3));
    assert_eq!(log.segment(1).index.len(), 1);
    for _ in 0..5 {
        log.append(record(&[3u8; 255])).unwrap();
    }
    assert_eq!(log.segment_count(), 3);
    assert_eq!(log.segment(2).segment.path(), "00000000000000000006.log");
    assert_eq!(log.segment(0).segment.bytes(), &first[..]);
    assert_eq!(log.segment(0).index.len(), 3);
    for i in 0..9u64 {
        let want = if i < 3 { 1u8 } else if i == 3 { 2 } else { 3 };
        assert_eq!(log.read(LogOffset::new(i)).unwrap().unwrap().value.as_ref(), &[want; 255]);
    }
}

#[test]
fn record_that_fits_no_segment_is_refused() {
    let mut log = LogStorage::create(config(100, false));
    log.append(record(b"ok")).unwrap();
    match log.append(record(&[0u8; 56])) {
        Err(PyralogError::StorageError(m)) => assert_eq!(m, "Segment is full"),
        _ => panic!("an oversized record was taken"),
    }
    assert_eq!(log.high_watermark(), LogOffset::new(1));
    assert_eq!(log.segment_count(), 1);
    assert_eq!(log.append(record(&[0u8; 55])).unwrap(), LogOffset::new(1));
    assert_eq!(log.segment_count(), 2);
}

#[test]
fn append_encoded_wants_the_next_offset() {
    let mut log = LogStorage::create(config(1 << 20, false));
    let r = record(b"x").with_offset(LogOffset::new(5));
    let bytes = r.to_bytes().unwrap();
    assert!(matches!(log.append_encoded(r, bytes), Err(PyralogError::InvalidOffset(5))));
    let r = record(b"x");
    let bytes = r.to_bytes().unwrap();
    assert_eq!(log.append_encoded(r, bytes).unwrap(), LogOffset::new(0));
    assert_eq!(log.read(LogOffset::new(0)).unwrap().unwrap().value.as_ref(), b"x");
}

#[test]
fn batch_takes_contiguous_offsets_behind_the_cache() {
    let mut log = LogStorage::create(config(1 << 20, true));
    log.append(record(b"cached")).unwrap();
    let batch = RecordBatch::new(LogOffset::new(0), vec![record(b"b0"), record(b"b1"), record(b"b2")]);
    assert_eq!(log.append_batch(batch).unwrap(), LogOffset::new(1));
    assert_eq!(log.high_watermark(), LogOffset::new(4));
    assert_eq!(log.pending_count(), 0);
    let all = log.read_range(OffsetRange::new(LogOffset::new(0), LogOffset::new(10))).unwrap();
    let values: Vec<&[u8]> = all.iter().map(|r| r.value.as_ref()).collect();
    assert_eq!(values, vec![&b"cached"[..], b"b0", b"b1", b"b2"]);
    let offsets: Vec<u64> = all.iter().map(|r| r.offset.as_u64()).collect();
    assert_eq!(offsets, vec![0, 1, 2, 3]);
    let empty = RecordBatch::new(LogOffset::new(0), vec![]);
    assert_eq!(log.append_batch(empty).unwrap(), LogOffset::new(4));
    assert_eq!(log.high_watermark(), LogOffset::new(4));
    // One record too large: none of the batch is taken.
    let mut small = LogStorage::create(config(100, false));
    let batch = RecordBatch::new(LogOffset::new(0), vec![record(b"a"), record(&[0u8; 100])]);
    assert!(matches!(small.append_batch(batch), Err(PyralogError::StorageError(_))));
    assert_eq!(small.high_watermark(), LogOffset::new(0));
    assert!(small.read(LogOffset::new(0)).unwrap().is_none());
}

#[test]
fn ranges_and_limits() {
    let mut log = LogStorage::create(config(1 << 20, false));
    for i in 0..6u8 {
        log.append(record(&[i; 5])).unwrap();
    }
    let range = |a: u64, b: u64| OffsetRange::new(LogOffset::new(a), LogOffset::new(b));
    let offsets = |v: Vec<Record>| v.iter().map(|r| r.offset.as_u64()).collect::<Vec<u64>>();
    assert_eq!(offsets(log.read_range(range(2, 5)).unwrap()), vec![2, 3, 4]);
    assert_eq!(offsets(log.read_range(range(4, 100)).unwrap()), vec![4, 5]);
    assert!(log.read_range(range(5, 2)).unwrap().is_empty());
    assert!(log.read_range(range(6, u64::MAX)).unwrap().is_empty());
    assert_eq!(offsets(log.read_from(LogOffset::new(1), 3).unwrap()), vec![1, 2, 3]);
    assert_eq!(offsets(log.read_from(LogOffset::new(4), 3).unwrap()), vec![4, 5]);
    assert!(log.read_from(LogOffset::new(0), 0).unwrap().is_empty());
    assert!(log.read_from(LogOffset::new(6), 3).unwrap().is_empty());
    // Every record is stored in 50 bytes.
    assert_eq!(log.stored_size(LogOffset::new(0)), Some(50));
    assert_eq!(log.stored_size(LogOffset::new(6)), None);
    assert_eq!(offsets(log.read_from_limited(LogOffset::new(0), 10, 149).unwrap()), vec![0, 1]);
    assert_eq!(offsets(log.read_from_limited(LogOffset::new(0), 10, 150).unwrap()), vec![0, 1, 2]);
    assert_eq!(offsets(log.read_from_limited(LogOffset::new(3), 2, 1000).unwrap()), vec![3, 4]);
    assert!(log.read_from_limited(LogOffset::new(0), 10, 49).unwrap().is_empty());
}

#[test]
fn replay_gives_the_log_back() {
    let mut log = LogStorage::create(config(200, true));
    for i in 0..20u8 {
        log.append(record(&[i; 30])).unwrap();
    }
    log.flush();
    assert!(log.segment_count() > 1);
    let files = log.snapshot();
    assert_eq!(files.len(), log.segment_count());
    assert_eq!(files[0].name, "00000000000000000000.log");
    let replayed = LogStorage::open(files, config(200, true)).unwrap();
    assert_eq!(replayed.high_watermark(), log.high_watermark());
    assert_eq!(replayed.segment_count(), log.segment_count());
    for i in 0..=20u64 {
        let a = log.read(LogOffset::new(i)).unwrap();
        let b = replayed.read(LogOffset::new(i)).unwrap();
        assert_eq!(a.is_some(), b.is_some());
        if let (Some(a), Some(b)) = (a, b) {
            assert_eq!((a.offset, a.epoch, a.timestamp, &a.value), (b.offset, b.epoch, b.timestamp, &b.value));
        }
    }
    // The replayed log goes on where the first one stopped.
    let mut replayed = replayed;
    assert_eq!(replayed.append(record(b"next")).unwrap(), LogOffset::new(20));
}

#[test]
fn open_without_files_is_an_empty_log() {
    let log = LogStorage::open(vec![], config(100, true)).unwrap();
    assert_eq!(log.high_watermark(), LogOffset::new(0));
    assert_eq!(log.segment_count(), 1);
    assert_eq!(log.segment(0).segment.path(), "00000000000000000000.log");
}

#[test]
fn open_refuses_files_that_make_no_log() {
    let mut log = LogStorage::create(config(100, false));
    for i in 0..4u8 {
        log.append(record(&[i; 10])).unwrap();
    }
    assert_eq!(log.segment_count(), 4);
    let take = |ix: &[usize]| -> Vec<SegmentFile> {
        ix.iter().map(|i| log.snapshot().swap_remove(*i)).collect()
    };
    assert!(LogStorage::open(take(&[0, 1, 2, 3]), config(100, false)).is_ok());
    // A log may begin above zero, once its first segments are gone.
    let tail = LogStorage::open(take(&[2, 3]), config(100, false)).unwrap();
    assert_eq!(tail.high_watermark(), LogOffset::new(4));
    assert!(tail.read(LogOffset::new(1)).unwrap().is_none());
    assert!(tail.read(LogOffset::new(2)).unwrap().is_some());
    for bad in [vec![1usize, 0], vec![0, 2], vec![0, 0]] {
        assert!(matches!(LogStorage::open(take(&bad), config(100, false)), Err(PyralogError::StorageError(_))));
    }
    let mut files = take(&[0]);
    files[0].name = "first.log".to_string();
    assert!(matches!(LogStorage::open(files, config(100, false)), Err(PyralogError::StorageError(_))));
    let mut files = take(&[0]);
    files[0].log.truncate(3);
    assert!(matches!(LogStorage::open(files, config(100, false)), Err(PyralogError::StorageError(_))));
    let mut files = take(&[0, 1]);
    files[0].index.clear();
    assert!(matches!(LogStorage::open(files, config(100, false)), Err(PyralogError::StorageError(_))));
    // An index that misses the last entry only hides the last record.
    let mut files = take(&[3]);
    files[0].index.clear();
    let log = LogStorage::open(files, config(100, false)).unwrap();
    assert_eq!(log.high_watermark(), LogOffset::new(3));
}

#[test]
fn corrupt_record_is_an_error() {
    let mut log = LogStorage::create(config(1 << 20, false));
    log.append(record(b"good")).unwrap();
    let mut files = log.snapshot();
    for b in files[0].log.iter_mut() {
        *b = 0xFF;
    }
    let broken = LogStorage::open(files, config(1 << 20, false)).unwrap();
    assert!(matches!(broken.read(LogOffset::new(0)), Err(PyralogError::StorageError(_))));
    assert!(matches!(
        broken.read_range(OffsetRange::new(LogOffset::new(0), LogOffset::new(1))),
        Err(PyralogError::StorageError(_))
    ));
    assert!(matches!(broken.read_from(LogOffset::new(0), 1), Err(PyralogError::StorageError(_))));
    assert!(matches!(broken.read_from_limited(LogOffset::new(0), 1, 1000), Err(PyralogError::StorageError(_))));
}

#[test]
fn sync_marks_reach_segment_and_index() {
    let mut log = LogStorage::create(config(1 << 20, false));
    log.append(record(b"a")).unwrap();
    assert!(!log.segment(0).segment.unsynced().is_empty());
    assert_eq!(log.segment(0).index.unsynced().len(), 20);
    log.mark_synced(0);
    assert!(log.segment(0).segment.unsynced().is_empty());
    assert!(log.segment(0).index.unsynced().is_empty());
    assert_eq!(log.read(LogOffset::new(0)).unwrap().unwrap().value.as_ref(), b"a");
}

#[test]
fn write_cache_accepts_up_to_its_size() {
    let cfg = WriteCacheConfig { max_size: 10, max_buffer_time_ms: 60_000, enabled: true };
    let mut cache = WriteCache::new(cfg);
    let entry = |n: usize| CachedRecord { record: record(b"r"), encoded: vec![0u8; n] };
    assert!(cache.is_empty());
    assert!(!cache.should_flush());
    assert!(cache.accepts(10) && !cache.accepts(11));
    assert!(cache.push(entry(6)));
    assert!(!cache.push(entry(5)));
    assert_eq!((cache.len(), cache.size_bytes(), cache.first_len()), (1, 6, Some(6)));
    assert!(!cache.flush_due(59_999));
    assert!(cache.flush_due(60_000));
    assert!(cache.push(entry(4)));
    assert!(cache.flush_due(0));
    assert!(cache.should_flush());
    let drained = cache.drain();
    assert_eq!(drained.iter().map(|e| e.encoded.len()).collect::<Vec<_>>(), vec![6, 4]);
    assert!(cache.is_empty());
    assert_eq!(cache.size_bytes(), 0);
    assert!(!cache.flush_due(u128::MAX));
    let mut off = WriteCache::new(WriteCacheConfig { max_size: 10, max_buffer_time_ms: 0, enabled: false });
    assert!(!off.push(entry(1)));
    // A record that has waited as long as records may is due at once.
    let mut hasty = WriteCache::new(WriteCacheConfig { max_size: 10, max_buffer_time_ms: 0, enabled: true });
    assert!(hasty.push(entry(1)));
    assert!(hasty.should_flush());
}

#[test]
fn a_record_written_past_the_cache_is_read_at_once() {
    // The cache is switched off: every record goes to a segment.
    let mut log = LogStorage::create(config(1024, false));
    for i in 0..4u64 {
        let o = log.append(record(&[i as u8; 255])).unwrap();
        assert_eq!(o, LogOffset::new(i));
        assert_eq!(log.pending_count(), 0);
        assert_eq!(log.read(o).unwrap().unwrap().value.as_ref(), &[i as u8; 255]);
    }
    // The fourth record did not fit: the new segment begins at its offset,
    // is named after it, and holds nothing else.
    assert_eq!(log.segment_count(), 2);
    assert_eq!(log.segment(1).segment.base_offset(), LogOffset::new(3));
    assert_eq!(log.segment(1).segment.path(), "00000000000000000003.log");
    assert_eq!(log.segment(1).segment.size(), 300);
    assert_eq!(log.segment(1).index.len(), 1);
}

#[test]
fn segments_with_a_successor_stay_as_they_are() {
    let mut log = LogStorage::create(config(1024, true));
    for _ in 0..4 {
        log.append(record(&[1u8; 255])).unwrap();
    }
    log.flush();
    assert_eq!(log.segment_count(), 2);
    let data = log.segment(0).segment.bytes().to_vec();
    let index = log.segment(0).index.bytes().to_vec();
    let batch = RecordBatch::new(LogOffset::new(0), vec![record(&[2u8; 255]), record(&[3u8; 255]), record(&[4u8; 255])]);
    assert_eq!(log.append_batch(batch).unwrap(), LogOffset::new(4));
    log.append(record(&[5u8; 255])).unwrap();
    log.flush();
    assert_eq!(log.segment_count(), 3);
    assert_eq!(log.segment(0).segment.bytes(), &data[..]);
    assert_eq!(log.segment(0).index.bytes(), &index[..]);
    assert_eq!(log.segment(0).segment.path(), "00000000000000000000.log");
    assert_eq!(log.segment(2).segment.path(), "00000000000000000006.log");
}

#[test]
fn nothing_is_read_from_the_high_watermark_on() {
    let mut log = LogStorage::create(config(1 << 20, false));
    for i in 0..3u8 {
        log.append(record(&[i])).unwrap();
    }
    let hw = log.high_watermark().as_u64();
    for k in [hw, hw + 1, hw + 1000, u64::MAX] {
        assert!(log.read(LogOffset::new(k)).unwrap().is_none());
        assert!(log.read_from(LogOffset::new(k), 10).unwrap().is_empty());
    }
    assert_eq!(log.read_from(LogOffset::new(1), 10).unwrap().len(), 2);
    assert_eq!(log.read_from(LogOffset::new(0), 2).unwrap().len(), 2);
    assert_eq!(log.read_from_limited(LogOffset::new(0), 10, 2 * 46).unwrap().len(), 2);
    assert_eq!(log.read_from_limited(LogOffset::new(0), 10, 45).unwrap().len(), 0);
}

#[test]
fn a_record_that_does_not_encode_changes_nothing() {
    let early = std::time::UNIX_EPOCH - std::time::Duration::from_secs(1);
    let bad = || Record::new_at(None, Bytes::from("x"), early);
    for cache in [false, true] {
        let mut log = LogStorage::create(config(1 << 20, cache));
        log.append(record(b"a")).unwrap();
        assert!(matches!(log.append(bad()), Err(PyralogError::SerializationError(_))));
        assert_eq!(log.high_watermark(), LogOffset::new(1));
        // A batch is taken whole or not at all.
        let batch = RecordBatch::new(LogOffset::new(0), vec![record(b"b"), bad(), record(b"c")]);
        assert!(matches!(log.append_batch(batch), Err(PyralogError::SerializationError(_))));
        assert_eq!(log.high_watermark(), LogOffset::new(1));
        let batch = RecordBatch::new(LogOffset::new(0), vec![record(b"b"), record(&[0u8; 1 << 21])]);
        assert!(matches!(log.append_batch(batch), Err(PyralogError::StorageError(_))));
        assert_eq!(log.high_watermark(), LogOffset::new(1));
        assert_eq!(log.append(record(b"d")).unwrap(), LogOffset::new(1));
    }
}
