//! A partitioned, replicated, append-only log store.
//!
//! The crate holds the logic of a log node: the segmented storage engine,
//! the epoch and sequencer bookkeeping, the Raft state machine used for
//! cluster metadata, and the quorum replication rules. Every function is
//! stated with a contract and proved against it; what the crate takes from
//! `bytes`, `bincode` and `rand`, and from the clocks and the ordered map
//! of the standard library, is stated where it is called and taken on
//! trust. Files, sockets, timers and locks live with the embedding
//! program, which feeds this crate plain values.

pub mod base;
pub mod client;
pub mod cluster;
pub mod config;
pub mod consensus;
pub mod protocol;
pub mod replication;
pub mod server;
pub mod storage;

pub use base::epoch::{Epoch, EpochOffset};
pub use base::epoch_store::{EpochMetadata, EpochStore};
pub use base::error::PyralogError;
pub use base::log::{LogConfig, LogId, LogMetadata, RetentionPolicy};
pub use base::offset::{LogOffset, OffsetRange};
pub use base::partition::{Partition, PartitionId};
pub use base::record::{CompressionType, Record, RecordBatch, RecordHeader};
pub use base::sequencer::Sequencer;
pub use base::traits::ReplicationStatus;
pub use client::PyralogClient;
pub use cluster::ClusterManager;
pub use config::{DLogConfig, NetworkConfig, NodeConfig};
pub use consensus::election::{heartbeat_interval, ElectionTimeoutConfig};
pub use consensus::raft::{RaftConfig, RaftNode};
pub use consensus::raft_log::RaftLog;
pub use consensus::rpc::{
    AppendEntriesRequest, AppendEntriesResponse, VoteRequest, VoteResponse,
};
pub use consensus::state::{
    LeaderState, LogEntry, NodeRole, NodeState, PersistentState, VolatileState,
};
pub use protocol::api::{
    AckMode, ConsumeRequest, ConsumeResponse, CreateLogRequest, ProduceRecord, ProduceRequest,
    ProduceResponse,
};
pub use protocol::kafka::{
    kafka_topic_to_log_id, log_id_to_kafka_topic, KafkaApiKey, KafkaApiVersion, KafkaCodec,
    KafkaErrorCode,
};
pub use protocol::partitioner::{PartitionStrategy, Partitioner};
pub use protocol::request::Request;
pub use protocol::response::Response;
pub use replication::copyset::{CopySet, CopySetSelector, CopySetStats};
pub use replication::quorum::{QuorumConfig, QuorumSet, ReplicaSelectionStrategy};
pub use replication::replicator::{ReplicationConfig, ReplicationManager};
pub use replication::sync::SyncManager;
pub use server::DLogServer;
pub use storage::index::Index;
pub use storage::log_storage::{LogStorage, LogStorageConfig, SegmentFile};
pub use storage::segment::{Segment, SegmentConfig};
pub use storage::tiered::{RemoteStorageConfig, TieredStorage};
pub use storage::write_cache::{WriteCache, WriteCacheConfig};
