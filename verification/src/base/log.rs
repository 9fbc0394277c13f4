//! Names and settings of logs.

use vstd::prelude::*;
use vstd::string::StringExecFns;

verus! {

/// The name of a log: a namespace and a name within it.
#[derive(Debug, Clone, PartialEq, Eq, Hash)]
pub struct LogId {
    pub namespace: String,
    pub name: String,
}

impl LogId {
    pub fn new(namespace: &str, name: &str) -> (r: Self)
        ensures
            r.namespace@ == namespace@,
            r.name@ == name@,
    {
        Self { namespace: String::from_str(namespace), name: String::from_str(name) }
    }

    /// Whether two names are the same, part by part.
    pub fn same_as(&self, other: &LogId) -> (r: bool)
        ensures
            r == (self.namespace@ == other.namespace@ && self.name@ == other.name@),
    {
        self.namespace == other.namespace && self.name == other.name
    }

    /// A second name equal to this one.
    pub fn duplicate(&self) -> (r: Self)
        ensures
            r.namespace@ == self.namespace@,
            r.name@ == self.name@,
    {
        Self { namespace: self.namespace.clone(), name: self.name.clone() }
    }

    /// The name as text: namespace, a slash, name.
    pub fn to_text(&self) -> (r: String)
        ensures
            r@ == self.namespace@ + seq!['/'] + self.name@,
    {
        proof {
            reveal_strlit("/");
        }
        let mut s: String = self.namespace.clone();
        s.append("/");
        s.append(self.name.as_str());
        s
    }
}

/// How long a log keeps its records.
#[derive(Debug, Clone, Copy, PartialEq, Eq, Structural)]
pub enum RetentionPolicy {
    /// For a number of seconds.
    Time(u64),
    /// Up to a number of bytes.
    Size(u64),
    /// Until either limit is reached.
    TimeAndSize { time_seconds: u64, size_bytes: u64 },
    /// Without limit.
    Forever,
}

/// The settings of a log.
#[derive(Debug, Clone, Copy, PartialEq, Eq, Structural)]
pub struct LogConfig {
    /// The largest size of one segment file, in bytes.
    pub segment_size: u64,
    /// The interval between flushes, in milliseconds.
    pub flush_interval_ms: u64,
    /// Whether batches are compressed.
    pub compression_enabled: bool,
    /// Whether old segments move to remote storage.
    pub tiered_storage_enabled: bool,
}

impl Default for LogConfig {
    /// Segments of one gibibyte, a flush every second, compression on,
    /// tiered storage off.
    fn default() -> (r: Self)
        ensures
            r.segment_size == 1024 * 1024 * 1024,
            r.flush_interval_ms == 1000,
            r.compression_enabled,
            !r.tiered_storage_enabled,
    {
        Self {
            segment_size: 1024 * 1024 * 1024,
            flush_interval_ms: 1000,
            compression_enabled: true,
            tiered_storage_enabled: false,
        }
    }
}

/// What the cluster records of a log.
#[derive(Debug, Clone)]
pub struct LogMetadata {
    pub id: LogId,
    pub partition_count: u32,
    pub replication_factor: u32,
    pub retention_policy: RetentionPolicy,
    pub config: LogConfig,
}

impl LogMetadata {
    /// A second copy of the metadata.
    pub fn duplicate(&self) -> (r: Self)
        ensures
            r.id.namespace@ == self.id.namespace@,
            r.id.name@ == self.id.name@,
            r.partition_count == self.partition_count,
            r.replication_factor == self.replication_factor,
            r.retention_policy == self.retention_policy,
            r.config == self.config,
    {
        Self {
            id: self.id.duplicate(),
            partition_count: self.partition_count,
            replication_factor: self.replication_factor,
            retention_policy: self.retention_policy,
            config: self.config,
        }
    }
}

} // verus!
