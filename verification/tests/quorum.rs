use pyralog::{QuorumConfig, QuorumSet, ReplicaSelectionStrategy};

#[test]
fn test_quorum_config_validation() {
    let config = QuorumConfig::majority(3);
    assert!(config.validate().is_ok());

    let invalid = QuorumConfig {
        replication_factor: 3,
        write_quorum: 1,
        read_quorum: 1,
        selection_strategy: ReplicaSelectionStrategy::RoundRobin,
    };
    assert!(invalid.validate().is_err());
}

#[test]
fn test_quorum_set() {
    let mut quorum = QuorumSet::new(vec![1, 2, 3], 2);
    assert!(!quorum.is_satisfied());

    quorum.add_response(1);
    assert!(!quorum.is_satisfied());

    quorum.add_response(2);
    assert!(quorum.is_satisfied());
}

#[test]
fn quorum_violation_names_the_rule() {
    let config = QuorumConfig {
        replication_factor: 3,
        write_quorum: 1,
        read_quorum: 1,
        selection_strategy: ReplicaSelectionStrategy::RoundRobin,
    };
    let message = config.validate().unwrap_err();
    assert!(message.starts_with("Read and write quorums must overlap"));
    assert_eq!(message, "Read and write quorums must overlap for consistency");
    let valid = QuorumConfig {
        replication_factor: 3,
        write_quorum: 2,
        read_quorum: 2,
        selection_strategy: ReplicaSelectionStrategy::RoundRobin,
    };
    assert_eq!(valid.validate(), Ok(()));
}

#[test]
fn quorum_validation_messages() {
    let mut c = QuorumConfig::majority(0);
    assert_eq!(c.validate().unwrap_err(), "Replication factor must be at least 1");
    c = QuorumConfig::majority(3);
    c.write_quorum = 0;
    assert_eq!(c.validate().unwrap_err(), "Invalid write quorum size");
    c.write_quorum = 4;
    assert_eq!(c.validate().unwrap_err(), "Invalid write quorum size");
    c.write_quorum = 3;
    c.read_quorum = 0;
    assert_eq!(c.validate().unwrap_err(), "Invalid read quorum size");
    c.read_quorum = 4;
    assert_eq!(c.validate().unwrap_err(), "Invalid read quorum size");
    c.read_quorum = 1;
    assert_eq!(c.validate(), Ok(()));
    c.write_quorum = usize::MAX;
    c.read_quorum = usize::MAX;
    c.replication_factor = usize::MAX;
    assert_eq!(c.validate(), Ok(()));
}

#[test]
fn quorum_presets() {
    for r in 1..8usize {
        let m = QuorumConfig::majority(r);
        assert_eq!((m.write_quorum, m.read_quorum), (r / 2 + 1, r / 2 + 1));
        assert!(m.validate().is_ok());
        let w = QuorumConfig::write_optimized(r);
        assert_eq!((w.write_quorum, w.read_quorum), (1, r));
        assert!(w.validate().is_ok());
        let rd = QuorumConfig::read_optimized(r);
        assert_eq!((rd.write_quorum, rd.read_quorum), (r, 1));
        assert!(rd.validate().is_ok());
    }
    let d = QuorumConfig::default();
    assert_eq!((d.replication_factor, d.write_quorum, d.read_quorum), (3, 2, 2));
}

#[test]
fn quorum_set_counts_only_asked_nodes() {
    let mut quorum = QuorumSet::new(vec![1, 2, 3], 2);
    assert!(!quorum.add_response(9));
    assert_eq!(quorum.responses, 0);
    assert_eq!(quorum.remaining_nodes(), vec![1, 2, 3]);
    assert!(quorum.add_response(2));
    assert_eq!(quorum.remaining_nodes(), vec![1, 3]);
    assert!(quorum.add_response(3));
    assert!(quorum.is_satisfied());
    assert_eq!(quorum.remaining_nodes(), vec![1]);
    assert!(quorum.required_nodes.contains(&2) && quorum.required_nodes.contains(&3));
}

#[test]
fn a_node_that_answers_twice_counts_once() {
    let mut quorum = QuorumSet::new(vec![1, 2, 3], 2);
    assert!(quorum.add_response(2));
    assert!(quorum.add_response(2));
    assert!(quorum.add_response(2));
    assert_eq!(quorum.responses, 1);
    assert_eq!(quorum.required_nodes.len(), 1);
    assert!(!quorum.is_satisfied());
    assert!(!quorum.add_response(7));
    assert_eq!(quorum.responses, 1);
    assert!(quorum.add_response(1));
    assert_eq!(quorum.responses, 2);
    assert!(quorum.is_satisfied());
    assert_eq!(quorum.remaining_nodes(), vec![3]);
}
