use pyralog::{EpochOffset, Epoch, LogOffset, OffsetRange};

#[test]
fn offset_next_saturates() {
    assert_eq!(LogOffset::new(0).next(), LogOffset::new(1));
    assert_eq!(LogOffset::new(41).next().as_u64(), 42);
    assert_eq!(LogOffset::max().next(), LogOffset::max());
    assert_eq!(LogOffset::zero().as_u64(), 0);
    assert_eq!(LogOffset::max().as_u64(), u64::MAX);
}

#[test]
fn offset_prev_stops_at_zero() {
    assert_eq!(LogOffset::new(0).prev(), None);
    assert_eq!(LogOffset::new(1).prev(), Some(LogOffset::new(0)));
    assert_eq!(LogOffset::max().prev(), Some(LogOffset::new(u64::MAX - 1)));
}

#[test]
fn offset_range_is_half_open() {
    let r = OffsetRange::new(LogOffset::new(5), LogOffset::new(8));
    assert!(!r.contains(LogOffset::new(4)));
    assert!(r.contains(LogOffset::new(5)));
    assert!(r.contains(LogOffset::new(7)));
    assert!(!r.contains(LogOffset::new(8)));
    assert_eq!(r.len(), 3);
    assert!(!r.is_empty());
}

#[test]
fn offset_range_backwards_is_empty() {
    let r = OffsetRange::new(LogOffset::new(8), LogOffset::new(5));
    assert_eq!(r.len(), 0);
    assert!(r.is_empty());
    assert!(!r.contains(LogOffset::new(6)));
    let e = OffsetRange::new(LogOffset::new(3), LogOffset::new(3));
    assert!(e.is_empty());
}

#[test]
fn epoch_numbers() {
    assert!(!Epoch::invalid().is_valid());
    assert!(Epoch::first().is_valid());
    assert_eq!(Epoch::first().as_u64(), 1);
    assert_eq!(Epoch::max().next(), Epoch::max());
    assert_eq!(Epoch::new(9).next().as_u64(), 10);
}

#[test]
fn lsn_packs_epoch_above_offset() {
    let eo = EpochOffset::new(Epoch::new(5), 100);
    assert_eq!(eo.to_lsn(), (5u64 << 32) | 100);
    assert_eq!(EpochOffset::from_lsn(0x0000_0007_0000_0009), EpochOffset::new(Epoch::new(7), 9));
    assert_eq!(EpochOffset::from_lsn(u64::MAX).to_lsn(), u64::MAX);
    assert_eq!(EpochOffset::new(Epoch::new(1), u32::MAX).next().offset, u32::MAX);
    assert_eq!(EpochOffset::new(Epoch::new(1), 4).next(), EpochOffset::new(Epoch::new(1), 5));
    assert!(!EpochOffset::invalid().is_valid());
    assert!(eo.is_valid());
}

#[test]
fn lsn_round_trip_holds_for_epochs_of_32_bits() {
    for (e, o) in [(0u64, 0u32), (1, 0), (1, u32::MAX), (0xFFFF_FFFF, 17), (0xFFFF_FFFF, u32::MAX)] {
        let eo = EpochOffset::new(Epoch::new(e), o);
        assert_eq!(EpochOffset::from_lsn(eo.to_lsn()), eo);
    }
    // An epoch beyond 32 bits loses its upper half in the sequence number.
    let wide = EpochOffset::new(Epoch::new(1 << 32), 3);
    assert_eq!(EpochOffset::from_lsn(wide.to_lsn()), EpochOffset::new(Epoch::new(0), 3));
}

#[test]
fn lsn_order_is_pair_order() {
    let pairs = [
        EpochOffset::new(Epoch::new(1), 0),
        EpochOffset::new(Epoch::new(1), 7),
        EpochOffset::new(Epoch::new(2), 0),
        EpochOffset::new(Epoch::new(2), u32::MAX),
        EpochOffset::new(Epoch::new(3), 1),
    ];
    for a in pairs.iter() {
        for b in pairs.iter() {
            assert_eq!(a < b, a.to_lsn() < b.to_lsn());
        }
    }
}
