use pyralog::base::offset::LogOffset;
use pyralog::storage::index::{Index, INDEX_ENTRY_SIZE};
use pyralog::storage::names::{
    decimal_text, index_file_name, parse_u64, path_file_name, segment_file_name, split_name,
    split_path, twenty_digits,
};
use pyralog::storage::segment::{Segment, SegmentConfig};
use pyralog::PyralogError;

#[test]
fn test_segment_create_and_write() {
    let config = SegmentConfig::default();

    let mut segment = Segment::create(LogOffset::new(0), config);

    let data = b"hello world";
    let offset = segment.append(data).unwrap();
    assert_eq!(offset, 0);

    let read_data = segment.read(offset, data.len()).unwrap();
    assert_eq!(read_data.as_ref(), data);
}

#[test]
fn segment_refuses_what_does_not_fit() {
    let config = SegmentConfig { max_size: 10, use_mmap: false, sync_on_write: false };
    let mut segment = Segment::create(LogOffset::new(7), config);
    assert_eq!(segment.base_offset(), LogOffset::new(7));
    assert_eq!(segment.path(), "00000000000000000007.log");
    assert!(segment.can_fit(10));
    assert!(!segment.can_fit(11));
    assert_eq!(segment.append(b"123456").unwrap(), 0);
    assert_eq!(segment.size(), 6);
    assert!(segment.can_fit(4));
    assert!(!segment.can_fit(5));
    assert!(!segment.can_fit(u64::MAX));
    match segment.append(b"12345") {
        Err(PyralogError::StorageError(m)) => assert_eq!(m, "Segment is full"),
        _ => panic!("a full segment took bytes"),
    }
    assert_eq!(segment.size(), 6);
    assert_eq!(segment.append(b"7890").unwrap(), 6);
    assert_eq!(segment.bytes(), b"1234567890");
    assert_eq!(segment.append(b"").unwrap(), 10);
}

#[test]
fn segment_read_stays_within_the_segment() {
    let mut segment = Segment::create(LogOffset::new(0), SegmentConfig::default());
    segment.append(b"abcdef").unwrap();
    assert_eq!(segment.read(2, 3).unwrap().as_ref(), b"cde");
    assert_eq!(segment.read(6, 0).unwrap().as_ref(), b"");
    assert!(matches!(segment.read(4, 3), Err(PyralogError::InvalidOffset(4))));
    assert!(matches!(segment.read(7, 0), Err(PyralogError::InvalidOffset(7))));
    assert!(matches!(segment.read(u64::MAX, usize::MAX), Err(PyralogError::InvalidOffset(u64::MAX))));
}

#[test]
fn segment_tracks_what_is_synced() {
    let mut segment = Segment::create(LogOffset::new(0), SegmentConfig::default());
    segment.append(b"abc").unwrap();
    assert_eq!(segment.unsynced(), b"abc");
    segment.sync();
    assert_eq!(segment.unsynced(), b"");
    segment.append(b"de").unwrap();
    assert_eq!(segment.unsynced(), b"de");
    let eager = SegmentConfig { max_size: 100, use_mmap: false, sync_on_write: true };
    let mut segment = Segment::create(LogOffset::new(0), eager);
    segment.append(b"abc").unwrap();
    assert_eq!(segment.unsynced(), b"");
}

#[test]
fn segment_open_reads_the_base_from_the_name() {
    let s = Segment::open("00000000000000000042.log", b"xyz".to_vec(), SegmentConfig::default()).unwrap();
    assert_eq!(s.base_offset(), LogOffset::new(42));
    assert_eq!(s.size(), 3);
    assert_eq!(s.unsynced(), b"");
    assert_eq!(s.path(), "00000000000000000042.log");
    let s = Segment::open("17", vec![], SegmentConfig::default()).unwrap();
    assert_eq!(s.base_offset(), LogOffset::new(17));
    for bad in ["", ".log", "abc.log", "12a.log", "-1.log", "18446744073709551616.log", "1 .log"] {
        assert!(matches!(
            Segment::open(bad, vec![], SegmentConfig::default()),
            Err(PyralogError::StorageError(_))
        ));
    }
}

#[test]
fn file_names_are_twenty_digits() {
    assert_eq!(segment_file_name(0), "00000000000000000000.log");
    assert_eq!(segment_file_name(3), "00000000000000000003.log");
    assert_eq!(segment_file_name(u64::MAX), "18446744073709551615.log");
    assert_eq!(index_file_name(1234567890), "00000000001234567890.index");
    assert_eq!(twenty_digits(10_000_000_000_000_000_000), "10000000000000000000");
    assert_eq!(decimal_text(0), "0");
    assert_eq!(decimal_text(907), "907");
    assert_eq!(decimal_text(u64::MAX), "18446744073709551615");
    for n in [0u64, 1, 9, 10, 99, 12345, u64::MAX - 1, u64::MAX] {
        let name = segment_file_name(n);
        let (stem, ext) = split_name(&name);
        assert_eq!(ext, Some("log"));
        assert_eq!(parse_u64(stem), Some(n));
        assert_eq!(parse_u64(&decimal_text(n)), Some(n));
    }
}

#[test]
fn parsing_follows_the_standard_library() {
    for s in ["0", "7", "007", "+5", "18446744073709551615", "18446744073709551616", "", "+", "-3", "1_0", "12x", " 1", "٣"] {
        assert_eq!(parse_u64(s), s.parse::<u64>().ok());
    }
}

#[test]
fn names_split_like_paths() {
    assert_eq!(split_name("a.b.c"), ("a.b", Some("c")));
    assert_eq!(split_name("abc"), ("abc", None));
    assert_eq!(split_name(".hidden"), (".hidden", None));
    assert_eq!(split_name("x."), ("x", Some("")));
    assert_eq!(split_path("a/b/c.log"), ("a/b/", "c.log"));
    assert_eq!(split_path("c.log"), ("", "c.log"));
    assert_eq!(split_path("a/"), ("a/", ""));
    assert_eq!(path_file_name("/data/p0/0001.log"), Some("0001.log"));
    assert_eq!(path_file_name("/data/p0/"), None);
    assert_eq!(path_file_name("/data/.."), None);
    assert_eq!(path_file_name("."), None);
    assert_eq!(path_file_name(""), None);
}

#[test]
fn index_keeps_entries_sorted_and_replays() {
    let mut index = Index::create();
    assert_eq!(index.lookup(LogOffset::new(0)), None);
    assert_eq!(index.lookup_le(LogOffset::new(u64::MAX)), None);
    index.append(LogOffset::new(10), 0, 5);
    index.append(LogOffset::new(30), 12, 7);
    index.append(LogOffset::new(20), 5, 7);
    assert_eq!(index.len(), 3);
    assert_eq!(index.bytes().len(), 3 * INDEX_ENTRY_SIZE);
    assert_eq!(index.lookup(LogOffset::new(20)), Some((5, 7)));
    assert_eq!(index.lookup(LogOffset::new(21)), None);
    assert_eq!(index.lookup_le(LogOffset::new(9)), None);
    assert_eq!(index.lookup_le(LogOffset::new(10)), Some((LogOffset::new(10), 0, 5)));
    assert_eq!(index.lookup_le(LogOffset::new(29)), Some((LogOffset::new(20), 5, 7)));
    assert_eq!(index.lookup_le(LogOffset::new(u64::MAX)), Some((LogOffset::new(30), 12, 7)));
    assert_eq!(
        index.entries(),
        vec![
            (LogOffset::new(10), 0, 5),
            (LogOffset::new(20), 5, 7),
            (LogOffset::new(30), 12, 7)
        ]
    );
    // A second entry for an offset takes the place of the first.
    index.append(LogOffset::new(20), 99, 1);
    assert_eq!(index.len(), 3);
    assert_eq!(index.lookup(LogOffset::new(20)), Some((99, 1)));
    assert_eq!(index.last().unwrap().offset, LogOffset::new(30));
    assert_eq!(index.entries()[0], (LogOffset::new(10), 0, 5));
    assert_eq!(index.entries()[1], (LogOffset::new(20), 99, 1));

    let replayed = Index::open(index.bytes());
    assert_eq!(replayed.entries(), index.entries());
    assert_eq!(replayed.bytes(), index.bytes());
    assert_eq!(replayed.unsynced(), b"");
    assert_eq!(index.unsynced().len(), 4 * INDEX_ENTRY_SIZE);
    index.sync();
    assert_eq!(index.unsynced(), b"");
}

#[test]
fn index_file_layout_is_little_endian_triples() {
    let mut index = Index::create();
    index.append(LogOffset::new(0x0102030405060708), 0x1112131415161718, 0x21222324);
    assert_eq!(
        index.bytes(),
        [
            0x08, 0x07, 0x06, 0x05, 0x04, 0x03, 0x02, 0x01, 0x18, 0x17, 0x16, 0x15, 0x14, 0x13,
            0x12, 0x11, 0x24, 0x23, 0x22, 0x21
        ]
    );
    // A torn entry at the end of the file is dropped.
    let mut bytes = index.bytes().to_vec();
    bytes.extend_from_slice(&[1, 2, 3]);
    let opened = Index::open(&bytes);
    assert_eq!(opened.len(), 1);
    assert_eq!(opened.bytes().len(), 20);
    assert_eq!(opened.lookup(LogOffset::new(0x0102030405060708)), Some((0x1112131415161718, 0x21222324)));
    assert_eq!(Index::open(&[0u8; 19]).len(), 0);
}
