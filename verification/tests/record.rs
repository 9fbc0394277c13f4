use bytes::Bytes;
use pyralog::{CompressionType, Epoch, LogOffset, PyralogError, Record, RecordBatch, RecordHeader};
use std::time::SystemTime;

fn sample() -> Record {
    Record::new(Some(Bytes::from("key")), Bytes::from("value"))
        .with_epoch(Epoch::new(3))
        .with_offset(LogOffset::new(77))
        .with_headers(vec![
            RecordHeader::new("a".to_string(), Bytes::from("1")),
            RecordHeader::new("trace".to_string(), Bytes::from(vec![0u8, 255])),
        ])
}

fn same(a: &Record, b: &Record) -> bool {
    a.offset == b.offset
        && a.epoch == b.epoch
        && a.timestamp == b.timestamp
        && a.key == b.key
        && a.value == b.value
        && a.headers.len() == b.headers.len()
        && a.headers.iter().zip(b.headers.iter()).all(|(x, y)| x.key == y.key && x.value == y.value)
}

#[test]
fn new_record_has_no_place_yet() {
    let before = SystemTime::now();
    let r = Record::new(None, Bytes::from("v"));
    let after = SystemTime::now();
    assert_eq!(r.offset, LogOffset::zero());
    assert_eq!(r.epoch, Epoch::invalid());
    assert!(r.key.is_none());
    assert_eq!(r.value, Bytes::from("v"));
    assert!(r.headers.is_empty());
    assert!(before <= r.timestamp && r.timestamp <= after);
}

#[test]
fn record_sizes() {
    assert_eq!(sample().size_bytes(), 3 + 5);
    assert_eq!(Record::new(None, Bytes::from("12345")).size_bytes(), 5);
    assert_eq!(Record::new(Some(Bytes::new()), Bytes::new()).size_bytes(), 0);
    let batch = RecordBatch::new(LogOffset::new(5), vec![sample(), Record::new(None, Bytes::from("xy"))]);
    assert_eq!(batch.count(), 2);
    assert_eq!(batch.size_bytes(), 10);
    assert_eq!(batch.last_offset(), Some(LogOffset::zero()));
    assert_eq!(batch.epoch, Epoch::invalid());
    assert_eq!(batch.compression, CompressionType::Uncompressed);
    assert_eq!(batch.crc, 0);
    let batch = batch.with_epoch(Epoch::new(2)).with_compression(CompressionType::Lz4);
    assert_eq!(batch.epoch, Epoch::new(2));
    assert_eq!(batch.compression, CompressionType::Lz4);
    let empty = RecordBatch::new(LogOffset::new(0), vec![]);
    assert_eq!((empty.count(), empty.size_bytes(), empty.last_offset()), (0, 0, None));
}

#[test]
fn record_duplicate_is_equal() {
    let r = sample();
    let d = r.duplicate();
    assert!(same(&r, &d));
    let h = r.headers[1].duplicate();
    assert_eq!(h.key, "trace");
    assert_eq!(h.value.as_ref(), &[0u8, 255]);
}

#[test]
fn record_round_trips_through_bytes() {
    for r in [
        sample(),
        Record::new(None, Bytes::new()),
        Record::new(Some(Bytes::new()), Bytes::from(vec![7u8; 1000])).with_offset(LogOffset::max()),
    ] {
        let bytes = r.to_bytes().unwrap();
        assert!(bytes.len() > r.size_bytes());
        let back = Record::from_bytes(&bytes).unwrap();
        assert!(same(&r, &back));
        // Bytes behind the record are ignored.
        let mut longer = bytes.clone();
        longer.extend_from_slice(b"tail");
        assert!(same(&r, &Record::from_bytes(&longer).unwrap()));
    }
}

#[test]
fn record_bytes_are_the_fields_in_order() {
    let r = Record::new(Some(Bytes::from("k")), Bytes::from("vv")).with_offset(LogOffset::new(5)).with_epoch(Epoch::new(2));
    let bytes = r.to_bytes().unwrap();
    assert_eq!(&bytes[0..8], &5u64.to_le_bytes());
    assert_eq!(&bytes[8..16], &2u64.to_le_bytes());
    // Twelve bytes of timestamp, then the key: present, one byte long.
    assert_eq!(bytes[28], 1);
    assert_eq!(&bytes[29..37], &1u64.to_le_bytes());
    assert_eq!(bytes[37], b'k');
    assert_eq!(&bytes[38..46], &2u64.to_le_bytes());
    assert_eq!(&bytes[46..48], b"vv");
    assert_eq!(&bytes[48..56], &0u64.to_le_bytes());
    assert_eq!(bytes.len(), 56);
}

#[test]
fn garbage_does_not_decode() {
    for bad in [&b""[..], &b"\x01\x02\x03"[..], &[0xFFu8; 40][..]] {
        match Record::from_bytes(bad) {
            Err(PyralogError::SerializationError(m)) => assert!(!m.is_empty()),
            _ => panic!("garbage decoded"),
        }
    }
}

#[test]
fn batch_round_trip() {
    let records = vec![
        Record::new(Some(Bytes::from("k")), Bytes::from("first")).with_offset(LogOffset::new(7)).with_epoch(Epoch::new(2)),
        Record::new(None, Bytes::from("second"))
            .with_offset(LogOffset::new(8))
            .with_epoch(Epoch::new(2))
            .with_headers(vec![RecordHeader::new("h".to_string(), Bytes::from("x"))]),
    ];
    let batch = RecordBatch::new(LogOffset::new(7), records).with_epoch(Epoch::new(2)).with_compression(CompressionType::Lz4);
    let bytes = batch.to_bytes().unwrap();
    let back = RecordBatch::from_bytes(&bytes).unwrap();
    assert_eq!(back.base_offset, LogOffset::new(7));
    assert_eq!(back.epoch, Epoch::new(2));
    assert_eq!(back.compression, CompressionType::Lz4);
    assert_eq!(back.crc, 0);
    assert_eq!(back.records.len(), 2);
    for (a, b) in batch.records.iter().zip(back.records.iter()) {
        assert_eq!((a.offset, a.epoch, a.timestamp, &a.key, &a.value), (b.offset, b.epoch, b.timestamp, &b.key, &b.value));
        assert_eq!(a.headers.len(), b.headers.len());
    }
    assert_eq!(back.records[1].headers[0].key, "h");
    assert_eq!(back.records[1].headers[0].value.as_ref(), b"x");
    assert_eq!(back.to_bytes().unwrap(), bytes);
    // An empty batch is a batch too.
    let empty = RecordBatch::new(LogOffset::new(0), vec![]);
    let bytes = empty.to_bytes().unwrap();
    assert_eq!(bytes.len(), 8 + 8 + 8 + 4 + 4);
    assert_eq!(RecordBatch::from_bytes(&bytes).unwrap().records.len(), 0);
    // Bytes that end early hold no batch, and neither do bytes that name
    // an unknown way of packing.
    assert!(matches!(RecordBatch::from_bytes(&bytes[..10]), Err(PyralogError::SerializationError(_))));
    let mut odd = bytes.clone();
    odd[24] = 9;
    assert!(matches!(RecordBatch::from_bytes(&odd), Err(PyralogError::SerializationError(m)) if m == "Unknown compression"));
    odd[24] = 4;
    assert_eq!(RecordBatch::from_bytes(&odd).unwrap().compression, CompressionType::Zstd);
}

#[test]
fn a_record_made_before_the_epoch_of_the_clock_does_not_encode() {
    let early = std::time::UNIX_EPOCH - std::time::Duration::from_secs(1);
    let r = Record::new_at(None, Bytes::from("v"), early);
    assert_eq!(r.timestamp, early);
    assert_eq!(r.offset, LogOffset::zero());
    assert_eq!(r.epoch, Epoch::invalid());
    assert!(matches!(r.to_bytes(), Err(PyralogError::SerializationError(_))));
    let batch = RecordBatch::new(LogOffset::new(0), vec![r]);
    assert!(matches!(batch.to_bytes(), Err(PyralogError::SerializationError(_))));
    let ok = Record::new_at(Some(Bytes::from("k")), Bytes::from("v"), std::time::UNIX_EPOCH);
    assert_eq!(ok.key.as_deref(), Some(&b"k"[..]));
    let bytes = ok.to_bytes().unwrap();
    assert!(same(&Record::from_bytes(&bytes).unwrap(), &ok));
}
