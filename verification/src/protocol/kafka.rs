//! Names and error codes of the Kafka protocol.
//!
//! A Kafka topic is the log of that name in the namespace `kafka`; a log of
//! another namespace appears as the topic `namespace.name`.

use vstd::prelude::*;
use vstd::string::StringExecFns;
use crate::base::error::PyralogError;
use crate::base::log::LogId;

verus! {

/// The log that stands for a Kafka topic.
pub fn kafka_topic_to_log_id(topic: &str) -> (r: LogId)
    ensures
        r.namespace@ == "kafka"@,
        r.name@ == topic@,
{
    LogId::new("kafka", topic)
}

/// Whether `s` is the text `kafka`.
fn is_kafka(s: &String) -> (r: bool)
    ensures
        r == (s@ == "kafka"@),
{
    let k: String = String::from_str("kafka");
    *s == k
}

/// The Kafka topic that stands for a log.
pub fn log_id_to_kafka_topic(log_id: &LogId) -> (r: String)
    ensures
        r@ == if log_id.namespace@ == "kafka"@ {
            log_id.name@
        } else {
            log_id.namespace@ + seq!['.'] + log_id.name@
        },
{
    if is_kafka(&log_id.namespace) {
        log_id.name.clone()
    } else {
        proof {
            reveal_strlit(".");
        }
        let mut s: String = log_id.namespace.clone();
        s.append(".");
        s.append(log_id.name.as_str());
        s
    }
}

/// The versions of the Kafka protocol that are understood.
#[derive(Debug, Clone, Copy, PartialEq, Eq, Structural)]
pub enum KafkaApiVersion {
    V0,
    V1,
    V2,
    V3,
}

/// The requests of the Kafka protocol.
#[derive(Debug, Clone, Copy, PartialEq, Eq, Structural)]
pub enum KafkaApiKey {
    Produce,
    Fetch,
    ListOffsets,
    Metadata,
    LeaderAndIsr,
    StopReplica,
    UpdateMetadata,
    ControlledShutdown,
    OffsetCommit,
    OffsetFetch,
    FindCoordinator,
    JoinGroup,
    Heartbeat,
    LeaveGroup,
    SyncGroup,
    DescribeGroups,
    ListGroups,
    SaslHandshake,
    ApiVersions,
    CreateTopics,
    DeleteTopics,
}

impl KafkaApiKey {
    /// The number of the request in the Kafka protocol.
    pub open spec fn spec_code(self) -> i16 {
        match self {
            KafkaApiKey::Produce => 0,
            KafkaApiKey::Fetch => 1,
            KafkaApiKey::ListOffsets => 2,
            KafkaApiKey::Metadata => 3,
            KafkaApiKey::LeaderAndIsr => 4,
            KafkaApiKey::StopReplica => 5,
            KafkaApiKey::UpdateMetadata => 6,
            KafkaApiKey::ControlledShutdown => 7,
            KafkaApiKey::OffsetCommit => 8,
            KafkaApiKey::OffsetFetch => 9,
            KafkaApiKey::FindCoordinator => 10,
            KafkaApiKey::JoinGroup => 11,
            KafkaApiKey::Heartbeat => 12,
            KafkaApiKey::LeaveGroup => 13,
            KafkaApiKey::SyncGroup => 14,
            KafkaApiKey::DescribeGroups => 15,
            KafkaApiKey::ListGroups => 16,
            KafkaApiKey::SaslHandshake => 17,
            KafkaApiKey::ApiVersions => 18,
            KafkaApiKey::CreateTopics => 19,
            KafkaApiKey::DeleteTopics => 20,
        }
    }

    /// The number of the request in the Kafka protocol.
    pub fn code(&self) -> (r: i16)
        ensures
            r == self.spec_code(),
    {
        match self {
            KafkaApiKey::Produce => 0,
            KafkaApiKey::Fetch => 1,
            KafkaApiKey::ListOffsets => 2,
            KafkaApiKey::Metadata => 3,
            KafkaApiKey::LeaderAndIsr => 4,
            KafkaApiKey::StopReplica => 5,
            KafkaApiKey::UpdateMetadata => 6,
            KafkaApiKey::ControlledShutdown => 7,
            KafkaApiKey::OffsetCommit => 8,
            KafkaApiKey::OffsetFetch => 9,
            KafkaApiKey::FindCoordinator => 10,
            KafkaApiKey::JoinGroup => 11,
            KafkaApiKey::Heartbeat => 12,
            KafkaApiKey::LeaveGroup => 13,
            KafkaApiKey::SyncGroup => 14,
            KafkaApiKey::DescribeGroups => 15,
            KafkaApiKey::ListGroups => 16,
            KafkaApiKey::SaslHandshake => 17,
            KafkaApiKey::ApiVersions => 18,
            KafkaApiKey::CreateTopics => 19,
            KafkaApiKey::DeleteTopics => 20,
        }
    }
}

/// The error codes of the Kafka protocol.
#[derive(Debug, Clone, Copy, PartialEq, Eq, Structural)]
pub enum KafkaErrorCode {
    NoError,
    OffsetOutOfRange,
    CorruptMessage,
    UnknownTopicOrPartition,
    InvalidMessageSize,
    LeaderNotAvailable,
    NotLeaderForPartition,
    RequestTimedOut,
    BrokerNotAvailable,
    ReplicaNotAvailable,
    MessageSizeTooLarge,
    StaleControllerEpoch,
    OffsetMetadataTooLarge,
    NetworkException,
    GroupLoadInProgress,
    GroupCoordinatorNotAvailable,
    NotCoordinatorForGroup,
    InvalidTopic,
    RecordListTooLarge,
    NotEnoughReplicas,
    NotEnoughReplicasAfterAppend,
}

impl KafkaErrorCode {
    /// The number of the error in the Kafka protocol.
    pub open spec fn spec_code(self) -> i16 {
        match self {
            KafkaErrorCode::NoError => 0,
            KafkaErrorCode::OffsetOutOfRange => 1,
            KafkaErrorCode::CorruptMessage => 2,
            KafkaErrorCode::UnknownTopicOrPartition => 3,
            KafkaErrorCode::InvalidMessageSize => 4,
            KafkaErrorCode::LeaderNotAvailable => 5,
            KafkaErrorCode::NotLeaderForPartition => 6,
            KafkaErrorCode::RequestTimedOut => 7,
            KafkaErrorCode::BrokerNotAvailable => 8,
            KafkaErrorCode::ReplicaNotAvailable => 9,
            KafkaErrorCode::MessageSizeTooLarge => 10,
            KafkaErrorCode::StaleControllerEpoch => 11,
            KafkaErrorCode::OffsetMetadataTooLarge => 12,
            KafkaErrorCode::NetworkException => 13,
            KafkaErrorCode::GroupLoadInProgress => 14,
            KafkaErrorCode::GroupCoordinatorNotAvailable => 15,
            KafkaErrorCode::NotCoordinatorForGroup => 16,
            KafkaErrorCode::InvalidTopic => 17,
            KafkaErrorCode::RecordListTooLarge => 18,
            KafkaErrorCode::NotEnoughReplicas => 19,
            KafkaErrorCode::NotEnoughReplicasAfterAppend => 20,
        }
    }

    /// The Kafka error that stands for an error of the log store.
    pub open spec fn spec_from_error(error: PyralogError) -> KafkaErrorCode {
        match error {
            PyralogError::InvalidOffset(_) => KafkaErrorCode::OffsetOutOfRange,
            PyralogError::LogNotFound(_) => KafkaErrorCode::UnknownTopicOrPartition,
            PyralogError::LeaderNotAvailable => KafkaErrorCode::LeaderNotAvailable,
            PyralogError::NotLeader(_) => KafkaErrorCode::NotLeaderForPartition,
            PyralogError::Timeout => KafkaErrorCode::RequestTimedOut,
            PyralogError::QuorumNotAvailable => KafkaErrorCode::NotEnoughReplicas,
            _ => KafkaErrorCode::NetworkException,
        }
    }

    /// The number of the error in the Kafka protocol.
    pub fn code(&self) -> (r: i16)
        ensures
            r == self.spec_code(),
    {
        match self {
            KafkaErrorCode::NoError => 0,
            KafkaErrorCode::OffsetOutOfRange => 1,
            KafkaErrorCode::CorruptMessage => 2,
            KafkaErrorCode::UnknownTopicOrPartition => 3,
            KafkaErrorCode::InvalidMessageSize => 4,
            KafkaErrorCode::LeaderNotAvailable => 5,
            KafkaErrorCode::NotLeaderForPartition => 6,
            KafkaErrorCode::RequestTimedOut => 7,
            KafkaErrorCode::BrokerNotAvailable => 8,
            KafkaErrorCode::ReplicaNotAvailable => 9,
            KafkaErrorCode::MessageSizeTooLarge => 10,
            KafkaErrorCode::StaleControllerEpoch => 11,
            KafkaErrorCode::OffsetMetadataTooLarge => 12,
            KafkaErrorCode::NetworkException => 13,
            KafkaErrorCode::GroupLoadInProgress => 14,
            KafkaErrorCode::GroupCoordinatorNotAvailable => 15,
            KafkaErrorCode::NotCoordinatorForGroup => 16,
            KafkaErrorCode::InvalidTopic => 17,
            KafkaErrorCode::RecordListTooLarge => 18,
            KafkaErrorCode::NotEnoughReplicas => 19,
            KafkaErrorCode::NotEnoughReplicasAfterAppend => 20,
        }
    }

    /// The Kafka error that stands for an error of the log store.
    pub fn from_error(error: &PyralogError) -> (r: Self)
        ensures
            r == Self::spec_from_error(*error),
    {
        match error {
            PyralogError::InvalidOffset(_) => KafkaErrorCode::OffsetOutOfRange,
            PyralogError::LogNotFound(_) => KafkaErrorCode::UnknownTopicOrPartition,
            PyralogError::LeaderNotAvailable => KafkaErrorCode::LeaderNotAvailable,
            PyralogError::NotLeader(_) => KafkaErrorCode::NotLeaderForPartition,
            PyralogError::Timeout => KafkaErrorCode::RequestTimedOut,
            PyralogError::QuorumNotAvailable => KafkaErrorCode::NotEnoughReplicas,
            _ => KafkaErrorCode::NetworkException,
        }
    }
}

/// The codec of one version of the Kafka protocol.
#[derive(Debug, Clone, Copy, PartialEq, Eq, Structural)]
pub struct KafkaCodec {
    version: KafkaApiVersion,
}

impl KafkaCodec {
    pub closed spec fn spec_version(&self) -> KafkaApiVersion {
        self.version
    }

    pub fn new(version: KafkaApiVersion) -> (r: Self)
        ensures
            r.spec_version() == version,
    {
        Self { version }
    }

    /// The version of the protocol.
    pub fn version(&self) -> (r: KafkaApiVersion)
        ensures
            r == self.spec_version(),
    {
        self.version
    }
}

} // verus!
