use pyralog::{CopySet, CopySetSelector};
use std::collections::HashMap;

#[test]
fn test_copyset_selection() {
    let nodes = vec![1, 2, 3, 4, 5];
    let mut selector = CopySetSelector::new(nodes, 3);

    let copyset = selector.select_copyset().unwrap();
    assert_eq!(copyset.size(), 3);
    assert!(copyset.contains(copyset.leader));
}

#[test]
fn copyset_is_sorted_distinct_and_from_the_cluster() {
    let nodes = vec![50, 10, 40, 20, 30, 60, 70];
    let mut selector = CopySetSelector::new(nodes.clone(), 4);
    let mut different = std::collections::HashSet::new();
    for _ in 0..100 {
        let cs = selector.select_copyset().unwrap();
        assert_eq!(cs.nodes.len(), 4);
        for w in cs.nodes.windows(2) {
            assert!(w[0] < w[1]);
        }
        for n in cs.nodes.iter() {
            assert!(nodes.contains(n));
        }
        assert!(cs.nodes.contains(&cs.leader));
        different.insert(cs.nodes.clone());
    }
    // A hundred draws of four out of seven do not all agree.
    assert!(different.len() > 1);
    let stats = selector.get_stats();
    assert_eq!(stats.total_usage, 100);
    assert_eq!(stats.total_copysets, different.len());
    assert!(stats.min_usage >= 1 && stats.min_usage <= stats.max_usage);
    assert!(stats.max_usage <= 100);
}

#[test]
fn copyset_needs_enough_nodes() {
    let mut small = CopySetSelector::new(vec![1, 2], 3);
    assert!(small.select_copyset().is_none());
    assert_eq!(small.get_stats().total_usage, 0);
    let mut exact = CopySetSelector::new(vec![3, 1, 2], 3);
    assert_eq!(exact.select_copyset().unwrap().nodes, vec![1, 2, 3]);
    assert_eq!(exact.select_copyset().unwrap().nodes, vec![1, 2, 3]);
    let stats = exact.get_stats();
    assert_eq!((stats.total_copysets, stats.total_usage, stats.max_usage, stats.min_usage), (1, 2, 2, 2));
    let mut none = CopySetSelector::new(vec![1, 2, 3], 0);
    assert!(none.select_copyset().is_none());
    let empty = CopySetSelector::new(vec![], 1).get_stats();
    assert_eq!((empty.total_copysets, empty.total_usage, empty.max_usage, empty.min_usage), (0, 0, 0, 0));
}

#[test]
fn copyset_dc_aware_holds_a_preferred_node() {
    let nodes = vec![1, 2, 3, 4, 5, 6];
    let mut map = HashMap::new();
    map.insert(1u64, "east".to_string());
    map.insert(2u64, "west".to_string());
    map.insert(3u64, "west".to_string());
    map.insert(4u64, "north".to_string());
    let mut selector = CopySetSelector::new(nodes.clone(), 3);
    for _ in 0..50 {
        let cs = selector.select_copyset_dc_aware(&map, "east").unwrap();
        assert_eq!(cs.nodes.len(), 3);
        assert!(cs.nodes.contains(&1));
        for w in cs.nodes.windows(2) {
            assert!(w[0] < w[1]);
        }
        assert!(cs.nodes.contains(&cs.leader));
    }
    for _ in 0..50 {
        let cs = selector.select_copyset_dc_aware(&map, "west").unwrap();
        assert!(cs.nodes.contains(&2) || cs.nodes.contains(&3));
    }
    // No node of the datacenter: any three nodes do.
    let cs = selector.select_copyset_dc_aware(&map, "south").unwrap();
    assert_eq!(cs.nodes.len(), 3);
    let mut small = CopySetSelector::new(vec![1, 2], 3);
    assert!(small.select_copyset_dc_aware(&map, "east").is_none());
}

#[test]
fn copyset_value() {
    let cs = CopySet::new(vec![4, 5, 6], 5);
    assert_eq!(cs.size(), 3);
    assert!(cs.contains(4));
    assert!(!cs.contains(7));
    assert_eq!(cs.leader, 5);
}
