//! The configuration of a node.

use vstd::prelude::*;
use vstd::string::StringExecFns;
use crate::base::error::PyralogError;
use crate::replication::quorum::QuorumConfig;
use crate::replication::replicator::ReplicationConfig;
use crate::storage::log_storage::LogStorageConfig;
use crate::storage::segment::SegmentConfig;
use crate::storage::write_cache::WriteCacheConfig;

verus! {

/// Who the node is.
#[derive(Debug, Clone)]
pub struct NodeConfig {
    /// The node's number, unique in the cluster.
    pub node_id: u64,
    /// The directory that holds the node's data.
    pub data_dir: String,
    /// All nodes of the cluster.
    pub cluster_nodes: Vec<u64>,
}

/// Where the node listens.
#[derive(Debug, Clone)]
pub struct NetworkConfig {
    /// The address for clients.
    pub listen_address: String,
    /// The address for the other nodes of the cluster.
    pub internal_address: String,
    /// The number of connections served at once.
    pub max_connections: usize,
    /// The deadline of a client's request, in milliseconds.
    pub request_timeout_ms: u64,
}

/// The whole configuration of a node.
#[derive(Debug, Clone)]
pub struct DLogConfig {
    pub node: NodeConfig,
    pub storage: LogStorageConfig,
    pub replication: ReplicationConfig,
    pub network: NetworkConfig,
}

impl Default for DLogConfig {
    /// A cluster of one node that keeps its data in `./data`, with
    /// segments of one gibibyte, a write cache of sixteen mebibytes that
    /// holds records for ten milliseconds, the majority quorum of three,
    /// and the ports 9092 and 9093.
    fn default() -> (r: Self)
        ensures
            r.node.node_id == 1,
            r.node.data_dir@ == "./data"@,
            r.node.cluster_nodes@ == seq![1u64],
            r.storage.segment_config == (SegmentConfig {
                max_size: 1_073_741_824,
                use_mmap: true,
                sync_on_write: false,
            }),
            r.storage.cache_config == (WriteCacheConfig {
                max_size: 16_777_216,
                max_buffer_time_ms: 10,
                enabled: true,
            }),
            r.replication.quorum.replication_factor == 3,
            r.replication.quorum.write_quorum == 2,
            r.replication.quorum.read_quorum == 2,
            r.replication.max_in_flight == 1000,
            r.replication.retry_attempts == 3,
            r.replication.timeout_ms == 5000,
            r.network.listen_address@ == "0.0.0.0:9092"@,
            r.network.internal_address@ == "0.0.0.0:9093"@,
            r.network.max_connections == 10000,
            r.network.request_timeout_ms == 30000,
    {
        let mut cluster_nodes: Vec<u64> = Vec::new();
        cluster_nodes.push(1);
        Self {
            node: NodeConfig { node_id: 1, data_dir: String::from_str("./data"), cluster_nodes },
            storage: LogStorageConfig {
                segment_config: SegmentConfig {
                    max_size: 1024 * 1024 * 1024,
                    use_mmap: true,
                    sync_on_write: false,
                },
                cache_config: WriteCacheConfig {
                    max_size: 16 * 1024 * 1024,
                    max_buffer_time_ms: 10,
                    enabled: true,
                },
            },
            replication: ReplicationConfig::default(),
            network: NetworkConfig {
                listen_address: String::from_str("0.0.0.0:9092"),
                internal_address: String::from_str("0.0.0.0:9093"),
                max_connections: 10000,
                request_timeout_ms: 30000,
            },
        }
    }
}

impl DLogConfig {
    /// Tests the configuration: the quorum settings have to be valid. What
    /// is wrong with them is reported as a configuration error with the
    /// message that names the rule.
    pub fn validate(&self) -> (r: Result<(), PyralogError>)
        ensures
            r is Ok <==> self.replication.quorum.verdict() is Valid,
            r matches Err(e) ==> e matches PyralogError::ConfigError(msg) && msg@
                == QuorumConfig::message(self.replication.quorum.verdict()),
    {
        match self.replication.quorum.validate() {
            Ok(_) => Ok(()),
            Err(msg) => Err(PyralogError::ConfigError(msg)),
        }
    }
}

} // verus!
