use bytes::Bytes;
use pyralog::{PartitionStrategy, Partitioner};
use std::collections::hash_map::DefaultHasher;
use std::hash::{Hash, Hasher};

#[test]
fn test_round_robin_partitioner() {
    let mut partitioner = Partitioner::new(PartitionStrategy::RoundRobin, 3);

    let p1 = partitioner.partition(None, &Bytes::from("test"));
    let p2 = partitioner.partition(None, &Bytes::from("test"));
    let p3 = partitioner.partition(None, &Bytes::from("test"));
    let p4 = partitioner.partition(None, &Bytes::from("test"));

    assert_eq!(p1.as_u32(), 0);
    assert_eq!(p2.as_u32(), 1);
    assert_eq!(p3.as_u32(), 2);
    assert_eq!(p4.as_u32(), 0);
}

#[test]
fn test_key_hash_partitioner() {
    let mut partitioner = Partitioner::new(PartitionStrategy::KeyHash, 3);

    let key = Bytes::from("same-key");
    let p1 = partitioner.partition(Some(&key), &Bytes::from("value1"));
    let p2 = partitioner.partition(Some(&key), &Bytes::from("value2"));

    // Same key should always go to the same partition
    assert_eq!(p1, p2);
}

#[test]
fn key_hash_is_the_default_hash_of_the_key() {
    let mut partitioner = Partitioner::new(PartitionStrategy::KeyHash, 7);
    let mut seen = std::collections::HashSet::new();
    for k in ["a", "b", "c", "same-key", "another", "K", "", "0123456789"] {
        let key = Bytes::from(k);
        let mut hasher = DefaultHasher::new();
        key.hash(&mut hasher);
        let want = (hasher.finish() % 7) as u32;
        let got = partitioner.partition(Some(&key), &Bytes::from("v")).as_u32();
        assert_eq!(got, want);
        seen.insert(got);
    }
    // Different keys do not all land in one place.
    assert!(seen.len() > 1);
}

#[test]
fn key_hash_without_key_goes_round_robin() {
    let mut partitioner = Partitioner::new(PartitionStrategy::KeyHash, 2);
    assert_eq!(partitioner.partition(None, &Bytes::from("v")).as_u32(), 0);
    assert_eq!(partitioner.partition(None, &Bytes::from("v")).as_u32(), 1);
    assert_eq!(partitioner.partition(None, &Bytes::from("v")).as_u32(), 0);
}

#[test]
fn random_partition_is_one_of_the_partitions() {
    let mut partitioner = Partitioner::new(PartitionStrategy::Random, 5);
    let mut seen = std::collections::HashSet::new();
    for _ in 0..200 {
        let p = partitioner.partition(None, &Bytes::from("v")).as_u32();
        assert!(p < 5);
        seen.insert(p);
    }
    assert!(seen.len() > 1);
}

#[test]
fn sticky_partition_rotates() {
    let mut partitioner = Partitioner::new(PartitionStrategy::Sticky, 3);
    assert_eq!(partitioner.partition(None, &Bytes::from("v")).as_u32(), 0);
    assert_eq!(partitioner.partition(None, &Bytes::from("v")).as_u32(), 0);
    partitioner.rotate_sticky();
    assert_eq!(partitioner.partition(None, &Bytes::from("v")).as_u32(), 1);
    partitioner.rotate_sticky();
    partitioner.rotate_sticky();
    assert_eq!(partitioner.partition(None, &Bytes::from("v")).as_u32(), 0);
    assert_eq!(partitioner.partition_count(), 3);
    let all: Vec<u32> = partitioner.all_partitions().iter().map(|p| p.as_u32()).collect();
    assert_eq!(all, vec![0, 1, 2]);
    assert!(Partitioner::new(PartitionStrategy::Sticky, 0).all_partitions().is_empty());
}
