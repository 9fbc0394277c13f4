//! The server: it answers the requests of clients from the logs that the
//! node holds.
//!
//! Connections, framing and files are the embedding program's business;
//! what a request does to the node's logs and what is answered is decided
//! here.

use vstd::prelude::*;
use vstd::string::StringExecFns;
use crate::base::buffer::{bytes_of, opt_buffer_clone, opt_bytes_of};
use crate::base::error::PyralogError;
use crate::base::log::{LogConfig, LogId, LogMetadata, RetentionPolicy};
use crate::base::offset::LogOffset;
use crate::base::partition::PartitionId;
use crate::base::record::{Record, RecordHeader, RecordView, headers_view, records_view};
use crate::base::clock::wall_clock_now;
use crate::base::epoch::Epoch;
use crate::base::sequencer::Sequencer;
use crate::base::wire::{pairs_view, record_encodes, record_unwire, record_wire};
use std::time::SystemTime;
use crate::cluster::{log_position, ClusterManager};
use crate::config::DLogConfig;
use crate::consensus::election::ElectionTimeoutConfig;
use crate::consensus::raft::{RaftConfig, RaftNode};
use crate::protocol::api::{
    AckMode, ConsumeRequest, ConsumeResponse, CreateLogRequest, ProduceRecord, ProduceRequest,
    ProduceResponse,
};
use crate::protocol::partitioner::{key_hash_of, PartitionStrategy, Partitioner};
use crate::replication::replicator::ReplicationManager;
use crate::storage::log_storage::{grown, LogStorage};
use vstd::string::StrSliceExecFns;
use crate::storage::names::{decimal_digits, decimal_text, parse_decimal, parse_u64};

verus! {

/// The log of one partition together with the partition it belongs to.
pub struct PartitionStore {
    pub log_id: LogId,
    pub partition: PartitionId,
    pub storage: LogStorage,
}

/// Whether `s` holds the given partition of the given log.
pub open spec fn is_store(s: PartitionStore, namespace: Seq<char>, name: Seq<char>, partition: u32) -> bool {
    s.log_id.namespace@ == namespace && s.log_id.name@ == name && s.partition.0 == partition
}

/// The place of the first store of the partition at or after `from`, or
/// the length of the list.
pub open spec fn store_position(
    stores: Seq<PartitionStore>,
    namespace: Seq<char>,
    name: Seq<char>,
    partition: u32,
    from: int,
) -> int
    decreases stores.len() - from,
{
    if from < 0 || from >= stores.len() {
        stores.len() as int
    } else if is_store(stores[from], namespace, name, partition) {
        from
    } else {
        store_position(stores, namespace, name, partition, from + 1)
    }
}

/// The directory of a partition, relative to the node's data directory:
/// namespace, name, and `partition-` with the partition's number.
pub open spec fn partition_path_of(namespace: Seq<char>, name: Seq<char>, partition: u32) -> Seq<
    char,
> {
    namespace + seq!['/'] + name + seq!['/', 'p', 'a', 'r', 't', 'i', 't', 'i', 'o', 'n', '-']
        + decimal_digits(partition as nat)
}

/// The partition that a directory name stands for, if it is the name of a
/// partition's directory.
pub open spec fn partition_of_dir_name(name: Seq<char>) -> Option<PartitionId> {
    if name.len() < 10 || name.subrange(0, 10) != seq![
        'p',
        'a',
        'r',
        't',
        'i',
        't',
        'i',
        'o',
        'n',
        '-',
    ] {
        None
    } else {
        match parse_decimal(name.subrange(10, name.len() as int)) {
            Some(n) => if n <= u32::MAX {
                Some(PartitionId(n as u32))
            } else {
                None
            },
            None => None,
        }
    }
}

/// The partition that a produce request goes to in a log of
/// `partition_count` partitions: the one it names, or else the one that
/// the key of its first record hashes to, or the first partition if that
/// record has no key. A request that names no partition and carries no
/// record goes nowhere, and neither does one for a log without partitions.
pub open spec fn partition_for(request: ProduceRequest, partition_count: u32) -> Option<u32> {
    match request.partition {
        Some(p) => Some(p.0),
        None => if request.records@.len() == 0 || partition_count == 0 {
            None
        } else {
            match request.records@[0].key {
                Some(k) => Some((key_hash_of(bytes_of(k)) % (partition_count as u64)) as u32),
                None => Some(0),
            }
        },
    }
}

/// The record that the produced record `p` becomes at `offset` under
/// `epoch`, made at the time `now`: the same key, payload and headers.
pub open spec fn record_of(p: ProduceRecord, offset: int, epoch: u64, now: SystemTime) -> RecordView {
    RecordView {
        offset: offset as u64,
        epoch,
        timestamp: now,
        key: opt_bytes_of(p.key),
        value: bytes_of(p.value),
        headers: pairs_view(p.headers@),
    }
}

/// Whether the log holds the record `v` at its offset: the bytes that
/// belong to the offset are the record's, and they decode to it.
pub open spec fn holds(storage: LogStorage, v: RecordView) -> bool {
    storage.logical(v.offset) == Some(record_wire(v)) && record_unwire(record_wire(v)) == Some(v)
}

/// Where a run of appends starts: the offset of its first record, the
/// bytes of the last segment that this record has to fit behind, and the
/// size limit of a segment.
pub struct AppendStart {
    pub base: u64,
    pub used: nat,
    pub max_size: u64,
}

/// Whether record `k` of `records` is taken, the records before it having
/// been taken: stamped with its offset it encodes, an offset is left for
/// it, and its bytes fit in an index entry and in a segment, the first
/// record's behind what the last segment holds.
pub open spec fn takes_kth(
    start: AppendStart,
    records: Seq<ProduceRecord>,
    epoch: u64,
    now: SystemTime,
    k: int,
) -> bool {
    let v = record_of(records[k], start.base + k, epoch, now);
    let len = record_wire(v).len();
    &&& record_encodes(v)
    &&& start.base + k < u64::MAX
    &&& len <= u32::MAX
    &&& (if k == 0 {
        start.used
    } else {
        0
    }) + len <= start.max_size
}

/// What a run of appends leaves: the log `after` holds the first `k` of
/// `records` from `start.base` on, each of which was taken, and the result
/// is `Ok` where these are all; where they are not, record `k` was refused,
/// and the error says why: a record that does not encode is a
/// serialization error, no offset left an invalid offset, and no room a
/// storage error.
pub open spec fn appended(
    start: AppendStart,
    after: LogStorage,
    records: Seq<ProduceRecord>,
    epoch: u64,
    now: SystemTime,
    r: Result<(), PyralogError>,
) -> bool {
    let k = after.spec_next() - start.base;
    &&& 0 <= k <= records.len()
    &&& forall|j: int|
        0 <= j < k ==> #[trigger] takes_kth(start, records, epoch, now, j) && holds(
            after,
            record_of(records[j], start.base + j, epoch, now),
        )
    &&& match r {
        Ok(_) => k == records.len(),
        Err(e) => {
            let v = record_of(records[k], start.base + k, epoch, now);
            &&& k < records.len()
            &&& !takes_kth(start, records, epoch, now, k)
            &&& e is SerializationError || e is InvalidOffset || e is StorageError
            &&& e is SerializationError <==> !record_encodes(v)
            &&& e is InvalidOffset <==> record_encodes(v) && start.base + k == u64::MAX
        },
    }
}

/// A node's server.
pub struct DLogServer {
    config: DLogConfig,
    cluster: ClusterManager,
    storage: Vec<PartitionStore>,
    replication: ReplicationManager,
    sequencer: Sequencer,
}

impl DLogServer {
    /// The node's configuration.
    pub closed spec fn spec_config(&self) -> DLogConfig {
        self.config
    }

    /// The cluster's metadata.
    pub closed spec fn spec_cluster(&self) -> ClusterManager {
        self.cluster
    }

    /// The logs of the partitions that the node holds, in the order in
    /// which they were first used.
    pub closed spec fn spec_stores(&self) -> Seq<PartitionStore> {
        self.storage@
    }

    /// The replication manager.
    pub closed spec fn spec_replication(&self) -> ReplicationManager {
        self.replication
    }

    /// The sequencer: the epochs of the partitions that the node has led.
    pub closed spec fn spec_sequencer(&self) -> Sequencer {
        self.sequencer
    }

    /// Every part is sound, and every partition's log is made with the
    /// node's storage settings.
    pub closed spec fn wf(&self) -> bool {
        &&& self.cluster.wf()
        &&& self.replication.wf()
        &&& forall|i: int|
            0 <= i < self.storage@.len() ==> (#[trigger] self.storage@[i]).storage.wf()
                && self.storage@[i].storage.spec_config() == self.config.storage
    }

    /// The directory of the Raft state file, given the node's data
    /// directory.
    fn raft_dir(data_dir: &String) -> (r: String)
        ensures
            r@ == data_dir@ + seq!['/', 'r', 'a', 'f', 't'],
    {
        proof {
            reveal_strlit("/raft");
        }
        let mut s: String = data_dir.clone();
        s.append("/raft");
        assert("/raft"@ =~= seq!['/', 'r', 'a', 'f', 't']);
        s
    }

    /// A server without logs, whose Raft node is in the state that its
    /// state file holds, with a replication manager and a sequencer that
    /// have noted nothing yet. It is refused exactly where the Raft node
    /// is: for a state file that does not decode or holds a log out of
    /// order.
    pub fn new(config: DLogConfig, raft_image: Vec<u8>) -> (r: Result<Self, PyralogError>)
        ensures
            r is Ok <==> RaftNode::loadable(raft_image@),
            match r {
                Ok(s) => {
                    &&& s.wf()
                    &&& s.spec_config() == config
                    &&& s.spec_stores().len() == 0
                    &&& s.spec_cluster().spec_logs().len() == 0
                    &&& s.spec_cluster().spec_assignments() == Map::<u32, Vec<u64>>::empty()
                    &&& s.spec_cluster().spec_node() == config.node.node_id
                    &&& s.spec_cluster().spec_raft().starts_from(
                        config.node.node_id,
                        config.node.cluster_nodes@,
                        raft_image@,
                    )
                    &&& s.spec_replication().spec_config().same_as(config.replication)
                    &&& s.spec_replication().spec_cluster() == config.node.cluster_nodes@
                    &&& s.spec_replication().spec_copysets() == Map::<
                        u32,
                        crate::replication::copyset::CopySet,
                    >::empty()
                    &&& s.spec_replication().spec_sync().spec_offsets() == Map::<
                        u64,
                        LogOffset,
                    >::empty()
                    &&& s.spec_sequencer().wf()
                    &&& s.spec_sequencer().spec_node() == config.node.node_id
                    &&& forall|p: u32| #[trigger] s.spec_sequencer().spec_epochs(p).len() == 0
                },
                Err(e) => RaftNode::load_error(raft_image@, e),
            },
    {
        let raft_config = RaftConfig {
            node_id: config.node.node_id,
            cluster_nodes: config.node.cluster_nodes.clone(),
            data_dir: Self::raft_dir(&config.node.data_dir),
            election_timeout: ElectionTimeoutConfig::default(),
        };
        let cluster: ClusterManager = match ClusterManager::new(raft_config, raft_image) {
            Ok(c) => c,
            Err(e) => {
                return Err(e);
            },
        };
        let replication = ReplicationManager::new(
            config.replication.duplicate(),
            config.node.cluster_nodes.clone(),
        );
        let sequencer = Sequencer::new(config.node.node_id);
        Ok(Self { config, cluster, storage: Vec::new(), replication, sequencer })
    }

    /// The directory of a partition, relative to the node's data
    /// directory.
    pub fn partition_path(log_id: &LogId, partition: PartitionId) -> (r: String)
        ensures
            r@ == partition_path_of(log_id.namespace@, log_id.name@, partition.0),
    {
        proof {
            reveal_strlit("/");
            reveal_strlit("/partition-");
        }
        let mut s: String = log_id.namespace.clone();
        s.append("/");
        assert("/"@ =~= seq!['/']);
        s.append(log_id.name.as_str());
        s.append("/partition-");
        assert("/partition-"@ =~= seq!['/', 'p', 'a', 'r', 't', 'i', 't', 'i', 'o', 'n', '-']);
        let digits: String = decimal_text(partition.0 as u64);
        s.append(digits.as_str());
        s
    }

    /// The partition that a directory named `name` holds: the name is
    /// `partition-` followed by the partition's number in decimal.
    pub fn partition_of_dir(name: &str) -> (r: Option<PartitionId>)
        ensures
            r == partition_of_dir_name(name@),
    {
        let len: usize = name.unicode_len();
        if len < 10 {
            return None;
        }
        let head: &str = name.substring_char(0, 10);
        let ok: bool = head.get_char(0) == 'p' && head.get_char(1) == 'a' && head.get_char(2) == 'r'
            && head.get_char(3) == 't' && head.get_char(4) == 'i' && head.get_char(5) == 't'
            && head.get_char(6) == 'i' && head.get_char(7) == 'o' && head.get_char(8) == 'n'
            && head.get_char(9) == '-';
        let ghost want = seq!['p', 'a', 'r', 't', 'i', 't', 'i', 'o', 'n', '-'];
        proof {
            if ok {
                assert(head@ =~= want);
            } else if head@ == want {
                assert(head@[0] == 'p' && head@[1] == 'a' && head@[2] == 'r' && head@[3] == 't'
                    && head@[4] == 'i' && head@[5] == 't' && head@[6] == 'i' && head@[7] == 'o'
                    && head@[8] == 'n' && head@[9] == '-');
            }
        }
        if !ok {
            return None;
        }
        match parse_u64(name.substring_char(10, len)) {
            Some(n) => if n <= u32::MAX as u64 {
                Some(PartitionId(n as u32))
            } else {
                None
            },
            None => None,
        }
    }

    /// The place of the store of the partition.
    fn find_store(&self, log_id: &LogId, partition: PartitionId) -> (i: usize)
        ensures
            i == store_position(self.storage@, log_id.namespace@, log_id.name@, partition.0, 0),
            i <= self.storage@.len(),
    {
        let n: usize = self.storage.len();
        let mut i: usize = 0;
        while i < n
            invariant
                i <= n,
                n == self.storage@.len(),
                store_position(
                    self.storage@,
                    log_id.namespace@,
                    log_id.name@,
                    partition.0,
                    i as int,
                ) == store_position(self.storage@, log_id.namespace@, log_id.name@, partition.0, 0),
            decreases n - i,
        {
            if self.storage[i].log_id.same_as(log_id) && self.storage[i].partition.0
                == partition.0 {
                return i;
            }
            i += 1;
        }
        i
    }

    /// The place of the log of the partition; a partition without a log
    /// gets an empty one.
    fn get_or_create_storage(&mut self, log_id: &LogId, partition: PartitionId) -> (i: usize)
        requires
            old(self).wf(),
        ensures
            final(self).wf(),
            final(self).config == old(self).config,
            final(self).cluster == old(self).cluster,
            final(self).replication == old(self).replication,
            final(self).sequencer == old(self).sequencer,
            final(self).storage@[i as int].storage.spec_config() == old(self).config.storage,
            i == store_position(old(self).storage@, log_id.namespace@, log_id.name@, partition.0, 0),
            i < final(self).storage@.len(),
            is_store(final(self).storage@[i as int], log_id.namespace@, log_id.name@, partition.0),
            i < old(self).storage@.len() ==> final(self).storage@ == old(self).storage@,
            i >= old(self).storage@.len() ==> {
                &&& final(self).storage@.len() == old(self).storage@.len() + 1
                &&& forall|k: int|
                    0 <= k < old(self).storage@.len() ==> final(self).storage@[k] == old(
                        self,
                    ).storage@[k]
                &&& final(self).storage@[i as int].storage.spec_next() == 0
                &&& final(self).storage@[i as int].storage.first_offset() == 0
                &&& final(self).storage@[i as int].storage.spec_pending().len() == 0
                &&& final(self).storage@[i as int].storage.spec_segments().len() == 1
                &&& final(self).storage@[i as int].storage.spec_segments()[0].segment.spec_data().len()
                    == 0
            },
    {
        let i: usize = self.find_store(log_id, partition);
        proof {
            lemma_store_position(self.storage@, log_id.namespace@, log_id.name@, partition.0, 0);
        }
        if i < self.storage.len() {
            return i;
        }
        let store = PartitionStore {
            log_id: log_id.duplicate(),
            partition,
            storage: LogStorage::create(self.config.storage),
        };
        let ghost before = self.storage@;
        self.storage.push(store);
        proof {
            assert forall|k: int| 0 <= k < self.storage@.len() implies (
            #[trigger] self.storage@[k]).storage.wf() && self.storage@[k].storage.spec_config()
                == self.config.storage by {
                if k < before.len() {
                    assert(self.storage@[k] == before[k]);
                    assert(before[k].storage.wf());
                }
            }
        }
        i
    }

    /// Takes in the log of a partition as it was opened from the node's
    /// files, unless the server holds a log of that partition already, and
    /// says whether it was taken.
    pub fn adopt_store(&mut self, log_id: LogId, partition: PartitionId, storage: LogStorage) -> (r:
        bool)
        requires
            old(self).wf(),
            storage.wf(),
            storage.spec_config() == old(self).spec_config().storage,
        ensures
            final(self).wf(),
            final(self).spec_config() == old(self).spec_config(),
            final(self).spec_cluster() == old(self).spec_cluster(),
            final(self).spec_replication() == old(self).spec_replication(),
            final(self).spec_sequencer() == old(self).spec_sequencer(),
            r == (store_position(
                old(self).spec_stores(),
                log_id.namespace@,
                log_id.name@,
                partition.0,
                0,
            ) >= old(self).spec_stores().len()),
            final(self).spec_stores() == if r {
                old(self).spec_stores().push(PartitionStore { log_id, partition, storage })
            } else {
                old(self).spec_stores()
            },
    {
        let i: usize = self.find_store(&log_id, partition);
        if i < self.storage.len() {
            return false;
        }
        let ghost before = self.storage@;
        self.storage.push(PartitionStore { log_id, partition, storage });
        proof {
            assert forall|k: int| 0 <= k < self.storage@.len() implies (
            #[trigger] self.storage@[k]).storage.wf() && self.storage@[k].storage.spec_config()
                == self.config.storage by {
                if k < before.len() {
                    assert(self.storage@[k] == before[k]);
                    assert(before[k].storage.wf());
                }
            }
        }
        true
    }

    /// The record that a produced record becomes under `epoch` at the time
    /// `now`, before it has an offset.
    fn to_record(p: &ProduceRecord, epoch: Epoch, now: SystemTime) -> (r: Record)
        ensures
            r@ == record_of(*p, 0, epoch.0, now),
    {
        let mut headers: Vec<RecordHeader> = Vec::new();
        let n: usize = p.headers.len();
        let mut i: usize = 0;
        while i < n
            invariant
                i <= n,
                n == p.headers@.len(),
                headers_view(headers@) =~= pairs_view(p.headers@).subrange(0, i as int),
            decreases n - i,
        {
            let h = RecordHeader::new(p.headers[i].0.clone(), p.headers[i].1.clone());
            let ghost before = headers@;
            headers.push(h);
            assert(headers_view(headers@) =~= headers_view(before).push(h@));
            i += 1;
        }
        assert(pairs_view(p.headers@).subrange(0, n as int) =~= pairs_view(p.headers@));
        Record::new_at(opt_buffer_clone(&p.key), p.value.clone(), now).with_epoch(
            epoch,
        ).with_headers(headers)
    }

    /// The partition that `request` goes to in a log of `partition_count`
    /// partitions.
    fn choose_partition(request: &ProduceRequest, partition_count: u32) -> (r: Option<PartitionId>)
        ensures
            match r {
                Some(p) => partition_for(*request, partition_count) == Some(p.0),
                None => partition_for(*request, partition_count) is None,
            },
    {
        match request.partition {
            Some(p) => Some(p),
            None => {
                if request.records.len() == 0 || partition_count == 0 {
                    return None;
                }
                let mut partitioner = Partitioner::new(PartitionStrategy::KeyHash, partition_count);
                let first: &ProduceRecord = &request.records[0];
                let p: PartitionId = match &first.key {
                    Some(k) => partitioner.partition(Some(k), &first.value),
                    None => partitioner.partition(None, &first.value),
                };
                Some(p)
            },
        }
    }

    /// Where a run of appends to `storage` starts.
    pub open spec fn start_of(storage: LogStorage) -> AppendStart {
        AppendStart {
            base: storage.spec_next(),
            used: storage.tail_used(),
            max_size: storage.spec_config().segment_config.max_size,
        }
    }

    /// Appends the records of a request to a partition's log, one after
    /// the other, until one is refused.
    fn append_all(
        storage: &mut LogStorage,
        records: &Vec<ProduceRecord>,
        epoch: Epoch,
        now: SystemTime,
    ) -> (r: Result<(), PyralogError>)
        requires
            old(storage).wf(),
        ensures
            final(storage).wf(),
            final(storage).spec_config() == old(storage).spec_config(),
            final(storage).first_offset() == old(storage).first_offset(),
            appended(Self::start_of(*old(storage)), *final(storage), records@, epoch.0, now, r),
            grown(old(storage).spec_segments(), final(storage).spec_segments()),
            forall|k: u64|
                k < old(storage).spec_next() ==> #[trigger] final(storage).logical(k) == old(
                    storage,
                ).logical(k),
    {
        let ghost s0 = *storage;
        let ghost start = Self::start_of(s0);
        let ghost base = storage.spec_next();
        let n: usize = records.len();
        let mut j: usize = 0;
        proof {
            storage.lemma_invariant();
            crate::storage::log_storage::lemma_grown_same(storage.spec_segments());
        }
        while j < n
            invariant
                j <= n,
                n == records@.len(),
                s0 == *old(storage),
                start == Self::start_of(s0),
                storage.wf(),
                storage.spec_config() == s0.spec_config(),
                storage.first_offset() == s0.first_offset(),
                base == s0.spec_next(),
                storage.spec_next() == base + j,
                storage.tail_used() == (if j == 0 {
                    start.used
                } else {
                    0
                }),
                grown(s0.spec_segments(), storage.spec_segments()),
                forall|i: int|
                    0 <= i < j ==> #[trigger] takes_kth(start, records@, epoch.0, now, i) && holds(
                        *storage,
                        record_of(records@[i], base + i, epoch.0, now),
                    ),
                forall|k: u64| k < base ==> #[trigger] storage.logical(k) == s0.logical(k),
            decreases n - j,
        {
            let ghost before = *storage;
            let rec: Record = Self::to_record(&records[j], epoch, now);
            let ghost v = record_of(records@[j as int], base + j, epoch.0, now);
            assert(before.stamp(rec@) == v);
            assert(before.takes(rec@) == takes_kth(start, records@, epoch.0, now, j as int));
            match storage.append(rec) {
                Ok(o) => {
                    proof {
                        crate::storage::log_storage::lemma_grown_twice(
                            s0.spec_segments(),
                            before.spec_segments(),
                            storage.spec_segments(),
                        );
                        assert(holds(*storage, v));
                        assert forall|i: int| 0 <= i < j + 1 implies #[trigger] takes_kth(
                            start,
                            records@,
                            epoch.0,
                            now,
                            i,
                        ) && holds(*storage, record_of(records@[i], base + i, epoch.0, now)) by {
                            if i < j {
                                assert(takes_kth(start, records@, epoch.0, now, i));
                                assert(holds(before, record_of(records@[i], base + i, epoch.0, now)));
                                assert(storage.logical((base + i) as u64) == before.logical(
                                    (base + i) as u64,
                                ));
                            }
                        }
                        assert forall|k: u64| k < base implies #[trigger] storage.logical(k)
                            == s0.logical(k) by {
                            assert(storage.logical(k) == before.logical(k));
                        }
                    }
                },
                Err(e) => {
                    proof {
                        assert(!takes_kth(start, records@, epoch.0, now, j as int));
                        assert forall|i: int| 0 <= i < j implies #[trigger] takes_kth(
                            start,
                            records@,
                            epoch.0,
                            now,
                            i,
                        ) && holds(*storage, record_of(records@[i], base + i, epoch.0, now)) by {
                            assert(takes_kth(start, records@, epoch.0, now, i));
                            assert(holds(before, record_of(records@[i], base + i, epoch.0, now)));
                            assert(storage.logical((base + i) as u64) == before.logical(
                                (base + i) as u64,
                            ));
                        }
                        assert forall|k: u64| k < base implies #[trigger] storage.logical(k)
                            == s0.logical(k) by {
                            assert(storage.logical(k) == before.logical(k));
                        }
                    }
                    return Err(e);
                },
            }
            j += 1;
        }
        Ok(())
    }

    /// Nothing that `produce` can touch has changed between `before` and
    /// `after`: neither the logs nor the epochs.
    pub open spec fn untouched(before: Self, after: Self) -> bool {
        after.spec_stores() == before.spec_stores() && after.spec_sequencer()
            == before.spec_sequencer()
    }

    /// What `produce` does with a request that reaches the log of
    /// partition `p`, which this node leads.
    ///
    /// The partition has a log afterwards, a new and empty one if it had
    /// none; every other log is as it was. A request without records is
    /// invalid and changes nothing else. Otherwise the node sees to the
    /// epoch under which it writes from the end of the log on: it keeps
    /// the partition's latest epoch if that is open and its own, and else
    /// begins the next one. Where no epoch can begin no leader is
    /// available and the log stays as it is. Else the records are appended
    /// under that epoch, as `appended` says; the answer names the partition
    /// and the offset of the first record, and unless the request asks for
    /// no acknowledgement, no record waits in the cache afterwards.
    pub open spec fn written_outcome(
        before: Self,
        after: Self,
        request: ProduceRequest,
        p: u32,
        now: SystemTime,
        r: Result<ProduceResponse, PyralogError>,
    ) -> bool {
        let stores = before.spec_stores();
        let i = store_position(stores, request.log_id.namespace@, request.log_id.name@, p, 0);
        let fresh = i >= stores.len();
        let start = if fresh {
            AppendStart {
                base: 0,
                used: 0,
                max_size: before.spec_config().storage.segment_config.max_size,
            }
        } else {
            Self::start_of(stores[i].storage)
        };
        let epoch = before.spec_sequencer().spec_writing_epoch(p, start.base);
        let storage = after.spec_stores()[i].storage;
        &&& after.spec_stores().len() == if fresh {
            stores.len() + 1
        } else {
            stores.len()
        }
        &&& i < after.spec_stores().len()
        &&& is_store(after.spec_stores()[i], request.log_id.namespace@, request.log_id.name@, p)
        &&& forall|k: int| 0 <= k < stores.len() && k != i ==> after.spec_stores()[k] == stores[k]
        &&& !fresh ==> grown(stores[i].storage.spec_segments(), storage.spec_segments())
        &&& !fresh ==> forall|k: u64|
            k < start.base ==> #[trigger] storage.logical(k) == stores[i].storage.logical(k)
        &&& if request.records@.len() == 0 {
            &&& r matches Err(e) && e is InvalidRequest
            &&& after.spec_sequencer() == before.spec_sequencer()
            &&& storage.spec_next() == start.base
            &&& !fresh ==> after.spec_stores() == stores
        } else {
            &&& after.spec_sequencer().spec_node() == before.spec_sequencer().spec_node()
            &&& after.spec_sequencer().spec_epochs(p) == before.spec_sequencer().spec_writing_epochs(
                p,
                start.base,
            )
            &&& forall|q: u32|
                q != p ==> after.spec_sequencer().spec_epochs(q)
                    == before.spec_sequencer().spec_epochs(q)
            &&& if epoch == 0 {
                &&& r matches Err(e) && e is LeaderNotAvailable
                &&& storage.spec_next() == start.base
                &&& !fresh ==> after.spec_stores() == stores
            } else {
                &&& appended(
                    start,
                    storage,
                    request.records@,
                    epoch,
                    now,
                    match r {
                        Ok(_) => Ok(()),
                        Err(e) => Err(e),
                    },
                )
                &&& r matches Ok(resp) ==> {
                    &&& resp.partition.0 == p
                    &&& resp.base_offset.0 == start.base
                    &&& resp.error is None
                    &&& !(request.acks is NoAck) ==> storage.spec_pending().len() == 0
                }
            }
        }
    }

    /// What `produce` does with a request, the records being made at the
    /// time `now`.
    ///
    /// The request is refused, in this order, if its log is not
    /// registered, if no partition can be found for it, or if this node
    /// does not lead the partition; a node that does not lead names the
    /// leader, where the partition has one. Nothing changes then. A
    /// request without records that names no partition is invalid. For
    /// every other request `written_outcome` says what happens.
    pub open spec fn produce_outcome(
        before: Self,
        after: Self,
        request: ProduceRequest,
        now: SystemTime,
        r: Result<ProduceResponse, PyralogError>,
    ) -> bool {
        let logs = before.spec_cluster().spec_logs();
        let at = log_position(logs, request.log_id.namespace@, request.log_id.name@, 0);
        let target = if at < logs.len() {
            partition_for(request, logs[at].partition_count)
        } else {
            None
        };
        if at >= logs.len() {
            r matches Err(e) && e is LogNotFound && Self::untouched(before, after)
        } else if target is None {
            r matches Err(e) && (if request.records@.len() == 0 {
                e is InvalidRequest
            } else {
                e is PartitionNotFound
            }) && Self::untouched(before, after)
        } else if !before.spec_cluster().spec_leads(target->0) {
            r matches Err(e) && e == PyralogError::NotLeader(
                before.spec_cluster().spec_leader(target->0),
            ) && Self::untouched(before, after)
        } else {
            Self::written_outcome(before, after, request, target->0, now, r)
        }
    }

    /// Appends the records of a request to the partition they belong to
    /// and answers with the offset of the first. The records are stamped
    /// with the time at which the request is taken up, and with the epoch
    /// under which the node writes to the partition. A record that the log
    /// refuses ends the request; the records before it stay appended.
    pub fn produce(&mut self, request: ProduceRequest) -> (r: Result<ProduceResponse, PyralogError>)
        requires
            old(self).wf(),
        ensures
            final(self).wf(),
            final(self).spec_config() == old(self).spec_config(),
            final(self).spec_cluster() == old(self).spec_cluster(),
            final(self).spec_replication() == old(self).spec_replication(),
            exists|now: SystemTime| #[trigger]
                Self::produce_outcome(*old(self), *final(self), request, now, r),
    {
        let now: SystemTime = wall_clock_now();
        let ghost before = *self;
        let r = self.produce_at(request, now);
        assert(Self::produce_outcome(before, *self, request, now, r));
        r
    }

    /// What `produce` does once the time is read: the records are stamped
    /// with the time `now`.
    pub fn produce_at(&mut self, request: ProduceRequest, now: SystemTime) -> (r: Result<
        ProduceResponse,
        PyralogError,
    >)
        requires
            old(self).wf(),
        ensures
            final(self).wf(),
            final(self).spec_config() == old(self).spec_config(),
            final(self).spec_cluster() == old(self).spec_cluster(),
            final(self).spec_replication() == old(self).spec_replication(),
            Self::produce_outcome(*old(self), *final(self), request, now, r),
    {
        let metadata: LogMetadata = match self.cluster.get_log(&request.log_id) {
            Some(m) => m,
            None => {
                return Err(PyralogError::LogNotFound(request.log_id.to_text()));
            },
        };
        let partition: PartitionId = match Self::choose_partition(
            &request,
            metadata.partition_count,
        ) {
            Some(p) => p,
            None => {
                if request.records.len() == 0 {
                    return Err(
                        PyralogError::InvalidRequest(String::from_str("No records in request")),
                    );
                }
                return Err(PyralogError::PartitionNotFound(0));
            },
        };
        if !self.cluster.is_partition_leader(partition) {
            return Err(PyralogError::NotLeader(self.cluster.partition_leader(partition)));
        }
        let ghost stores0 = self.storage@;
        let i: usize = self.get_or_create_storage(&request.log_id, partition);
        let ghost stores1 = self.storage@;
        let ghost fresh = i >= stores0.len();
        proof {
            lemma_store_position(
                stores0,
                request.log_id.namespace@,
                request.log_id.name@,
                partition.0,
                0,
            );
            assert(stores1[i as int].storage.wf());
            stores1[i as int].storage.lemma_invariant();
            crate::storage::log_storage::lemma_grown_same(
                stores1[i as int].storage.spec_segments(),
            );
            assert(Self::start_of(stores1[i as int].storage).used == 0 || !fresh);
        }
        if request.records.len() == 0 {
            return Err(PyralogError::InvalidRequest(String::from_str("No records written")));
        }
        assert(stores1[i as int].storage.wf());
        let base: LogOffset = self.storage[i].storage.high_watermark();
        let epoch: Epoch = self.sequencer.writing_epoch(partition, base.0);
        if epoch.0 == 0 {
            return Err(PyralogError::LeaderNotAvailable);
        }
        let mut store: PartitionStore = self.storage.remove(i);
        assert(store == stores1[i as int]);
        let ghost opened = store.storage;
        proof {
            opened.lemma_invariant();
            if fresh {
                assert(opened.tail_used() == 0);
            }
        }
        let outcome: Result<(), PyralogError> = Self::append_all(
            &mut store.storage,
            &request.records,
            epoch,
            now,
        );
        let flush: bool = match request.acks {
            AckMode::NoAck => false,
            _ => true,
        };
        let ghost written = store.storage;
        proof {
            written.lemma_invariant();
            crate::storage::log_storage::lemma_grown_same(written.spec_segments());
        }
        if outcome.is_ok() && flush {
            store.storage.flush();
        }
        proof {
            let start = Self::start_of(opened);
            crate::storage::log_storage::lemma_grown_twice(
                opened.spec_segments(),
                written.spec_segments(),
                store.storage.spec_segments(),
            );
            assert forall|j: int| 0 <= j < written.spec_next() - start.base implies holds(
                store.storage,
                record_of(request.records@[j], start.base + j, epoch.0, now),
            ) by {
                assert(takes_kth(start, request.records@, epoch.0, now, j));
                assert(holds(written, record_of(request.records@[j], start.base + j, epoch.0, now)));
                assert(store.storage.logical((start.base + j) as u64) == written.logical(
                    (start.base + j) as u64,
                ));
            }
            assert(appended(start, store.storage, request.records@, epoch.0, now, outcome));
            assert forall|k: u64| k < start.base implies #[trigger] store.storage.logical(k)
                == opened.logical(k) by {
                assert(store.storage.logical(k) == written.logical(k));
            }
        }
        let ghost done = store;
        self.storage.insert(i, store);
        proof {
            assert(self.storage@ =~= stores1.update(i as int, done));
            assert forall|k: int| 0 <= k < self.storage@.len() implies (
            #[trigger] self.storage@[k]).storage.wf() && self.storage@[k].storage.spec_config()
                == self.config.storage by {
                if k != i {
                    assert(self.storage@[k] == stores1[k]);
                    assert(stores1[k].storage.wf());
                }
            }
        }
        match outcome {
            Ok(_) => Ok(ProduceResponse { partition, base_offset: base, error: None }),
            Err(e) => Err(e),
        }
    }

    /// Reads records from a partition: up to `max_records` of them from
    /// `offset` on, as long as the bytes stored for them stay within
    /// `max_bytes`. A partition that the node does not hold yet gets an
    /// empty log. The read fails exactly where a stored record that it
    /// comes to does not decode.
    pub fn consume(&mut self, request: ConsumeRequest) -> (r: Result<ConsumeResponse, PyralogError>)
        requires
            old(self).wf(),
        ensures
            final(self).wf(),
            final(self).spec_config() == old(self).spec_config(),
            final(self).spec_cluster() == old(self).spec_cluster(),
            final(self).spec_replication() == old(self).spec_replication(),
            final(self).spec_sequencer() == old(self).spec_sequencer(),
            ({
                let stores = old(self).spec_stores();
                let i = store_position(
                    stores,
                    request.log_id.namespace@,
                    request.log_id.name@,
                    request.partition.0,
                    0,
                );
                let storage = final(self).spec_stores()[i].storage;
                let stop = storage.read_stop(
                    request.offset.0,
                    0,
                    0,
                    request.max_records as int,
                    Some(request.max_bytes as int),
                );
                &&& i < final(self).spec_stores().len()
                &&& i < stores.len() ==> final(self).spec_stores() == stores
                &&& i >= stores.len() ==> {
                    &&& final(self).spec_stores().len() == stores.len() + 1
                    &&& forall|k: int|
                        0 <= k < stores.len() ==> final(self).spec_stores()[k] == stores[k]
                    &&& storage.spec_next() == 0
                }
                &&& r is Ok <==> storage.range_decodes(request.offset.0, stop)
                &&& match r {
                    Ok(resp) => {
                        &&& resp.partition == request.partition
                        &&& resp.high_watermark.0 == storage.spec_next()
                        &&& resp.error is None
                        &&& records_view(resp.records@) == storage.range_records(
                            request.offset.0,
                            stop,
                        )
                        &&& resp.records@.len() <= request.max_records
                        &&& storage.range_size(request.offset.0, stop) <= request.max_bytes
                    },
                    Err(e) => e is StorageError,
                }
            }),
    {
        let i: usize = self.get_or_create_storage(&request.log_id, request.partition);
        let store: &PartitionStore = &self.storage[i];
        assert(self.storage@[i as int].storage.wf());
        let records: Vec<Record> = match store.storage.read_from_limited(
            request.offset,
            request.max_records,
            request.max_bytes,
        ) {
            Ok(v) => v,
            Err(e) => {
                return Err(e);
            },
        };
        let high_watermark: LogOffset = store.storage.high_watermark();
        Ok(ConsumeResponse { partition: request.partition, high_watermark, records, error: None })
    }

    /// Registers a log that keeps its records forever, with the default
    /// settings.
    pub fn create_log(&mut self, request: CreateLogRequest)
        requires
            old(self).wf(),
        ensures
            final(self).wf(),
            final(self).spec_config() == old(self).spec_config(),
            final(self).spec_stores() == old(self).spec_stores(),
            final(self).spec_replication() == old(self).spec_replication(),
            final(self).spec_sequencer() == old(self).spec_sequencer(),
            final(self).spec_cluster().spec_node() == old(self).spec_cluster().spec_node(),
            final(self).spec_cluster().spec_assignments() == old(
                self,
            ).spec_cluster().spec_assignments(),
            ({
                let logs = old(self).spec_cluster().spec_logs();
                let after = final(self).spec_cluster().spec_logs();
                let at = log_position(logs, request.log_id.namespace@, request.log_id.name@, 0);
                &&& after.len() == if at < logs.len() {
                    logs.len()
                } else {
                    logs.len() + 1
                }
                &&& after[at].id == request.log_id
                &&& after[at].partition_count == request.partition_count
                &&& after[at].replication_factor == request.replication_factor
                &&& after[at].retention_policy == RetentionPolicy::Forever
                &&& forall|k: int| 0 <= k < logs.len() && k != at ==> after[k] == logs[k]
            }),
    {
        let metadata = LogMetadata {
            id: request.log_id,
            partition_count: request.partition_count,
            replication_factor: request.replication_factor,
            retention_policy: RetentionPolicy::Forever,
            config: LogConfig::default(),
        };
        proof {
            crate::cluster::lemma_log_position(
                self.cluster.spec_logs(),
                metadata.id.namespace@,
                metadata.id.name@,
                0,
            );
        }
        self.cluster.create_log(metadata);
    }

    /// Takes a log off the register, and says whether it was on it. The
    /// records of its partitions stay where they are.
    pub fn delete_log(&mut self, log_id: &LogId) -> (r: bool)
        requires
            old(self).wf(),
        ensures
            final(self).wf(),
            final(self).spec_config() == old(self).spec_config(),
            final(self).spec_stores() == old(self).spec_stores(),
            final(self).spec_replication() == old(self).spec_replication(),
            final(self).spec_sequencer() == old(self).spec_sequencer(),
            ({
                let logs = old(self).spec_cluster().spec_logs();
                let at = log_position(logs, log_id.namespace@, log_id.name@, 0);
                &&& r == (at < logs.len())
                &&& final(self).spec_cluster().spec_logs() == if r {
                    logs.remove(at)
                } else {
                    logs
                }
            }),
    {
        self.cluster.delete_log(log_id)
    }

    /// The names of all registered logs.
    pub fn list_logs(&self) -> (r: Vec<LogId>)
        ensures
            r@.len() == self.spec_cluster().spec_logs().len(),
            forall|i: int|
                0 <= i < r@.len() ==> (#[trigger] r@[i]).namespace@
                    == self.spec_cluster().spec_logs()[i].id.namespace@ && r@[i].name@
                    == self.spec_cluster().spec_logs()[i].id.name@,
    {
        self.cluster.list_logs()
    }

    /// Notes which nodes hold `partition`; the first of them leads it.
    pub fn assign_partition(&mut self, partition: PartitionId, nodes: Vec<u64>)
        requires
            old(self).wf(),
        ensures
            final(self).wf(),
            final(self).spec_config() == old(self).spec_config(),
            final(self).spec_stores() == old(self).spec_stores(),
            final(self).spec_replication() == old(self).spec_replication(),
            final(self).spec_sequencer() == old(self).spec_sequencer(),
            final(self).spec_cluster().spec_logs() == old(self).spec_cluster().spec_logs(),
            final(self).spec_cluster().spec_node() == old(self).spec_cluster().spec_node(),
            final(self).spec_cluster().spec_assignments() == old(
                self,
            ).spec_cluster().spec_assignments().insert(partition.0, nodes),
    {
        self.cluster.assign_partition(partition, nodes);
    }

    /// The number of partitions that the node holds a log of.
    pub fn store_count(&self) -> (n: usize)
        ensures
            n == self.spec_stores().len(),
    {
        self.storage.len()
    }

    /// The log of the partition at place `i`.
    pub fn store(&self, i: usize) -> (r: &PartitionStore)
        requires
            i < self.spec_stores().len(),
        ensures
            *r == self.spec_stores()[i as int],
    {
        &self.storage[i]
    }

    /// The cluster's metadata, for driving its Raft node: what is done
    /// through the reference is done to the server's cluster manager.
    pub fn cluster_mut(&mut self) -> (r: &mut ClusterManager)
        ensures
            *r == old(self).spec_cluster(),
            final(self).spec_cluster() == *final(r),
            final(self).spec_config() == old(self).spec_config(),
            final(self).spec_stores() == old(self).spec_stores(),
            final(self).spec_replication() == old(self).spec_replication(),
            final(self).spec_sequencer() == old(self).spec_sequencer(),
            old(self).wf() && final(r).wf() ==> final(self).wf(),
    {
        &mut self.cluster
    }

    /// Records that segment `segment` of the log at place `store`, and its
    /// index, have reached the disk as they are: all of their bytes count as
    /// durable afterwards. Nothing else changes, neither what the segment
    /// and the index hold nor any other segment or log.
    pub fn mark_synced(&mut self, store: usize, segment: usize)
        requires
            old(self).wf(),
            store < old(self).spec_stores().len(),
            segment < old(self).spec_stores()[store as int].storage.spec_segments().len(),
        ensures
            final(self).wf(),
            final(self).spec_config() == old(self).spec_config(),
            final(self).spec_cluster() == old(self).spec_cluster(),
            final(self).spec_replication() == old(self).spec_replication(),
            final(self).spec_sequencer() == old(self).spec_sequencer(),
            final(self).spec_stores().len() == old(self).spec_stores().len(),
            forall|k: int|
                0 <= k < old(self).spec_stores().len() && k != store ==> final(self).spec_stores()[k] == old(self).spec_stores()[k],
            final(self).spec_stores()[store as int].log_id == old(
                self,
            ).spec_stores()[store as int].log_id,
            final(self).spec_stores()[store as int].partition == old(
                self,
            ).spec_stores()[store as int].partition,
            final(self).spec_stores()[store as int].storage.spec_next() == old(
                self,
            ).spec_stores()[store as int].storage.spec_next(),
            final(self).spec_stores()[store as int].storage.spec_pending() == old(
                self,
            ).spec_stores()[store as int].storage.spec_pending(),
            forall|k: u64|
                #[trigger] final(self).spec_stores()[store as int].storage.logical(k) == old(
                    self,
                ).spec_stores()[store as int].storage.logical(k),
            ({
                let before = old(self).spec_stores()[store as int].storage.spec_segments();
                let after = final(self).spec_stores()[store as int].storage.spec_segments();
                &&& after.len() == before.len()
                &&& after[segment as int].segment.spec_durable()
                    == before[segment as int].segment.spec_data().len()
                &&& after[segment as int].index.spec_durable()
                    == before[segment as int].index.spec_image().len()
                &&& after[segment as int].segment.spec_data()
                    == before[segment as int].segment.spec_data()
                &&& after[segment as int].segment.spec_name()
                    == before[segment as int].segment.spec_name()
                &&& after[segment as int].index.spec_image()
                    == before[segment as int].index.spec_image()
                &&& forall|j: int|
                    0 <= j < before.len() && j != segment ==> #[trigger] after[j] == before[j]
            }),
    {
        let ghost stores0 = self.storage@;
        let mut s: PartitionStore = self.storage.remove(store);
        assert(s == stores0[store as int]);
        assert(s.storage.wf());
        s.storage.mark_synced(segment);
        let ghost done = s;
        self.storage.insert(store, s);
        proof {
            assert(self.storage@ =~= stores0.update(store as int, done));
            assert forall|k: int| 0 <= k < self.storage@.len() implies (
            #[trigger] self.storage@[k]).storage.wf() && self.storage@[k].storage.spec_config()
                == self.config.storage by {
                if k != store {
                    assert(self.storage@[k] == stores0[k]);
                    assert(stores0[k].storage.wf());
                }
            }
        }
    }

    /// The replication manager, for handing in acknowledgements and
    /// progress: what is done through the reference is done to the
    /// server's replication manager.
    pub fn replication_mut(&mut self) -> (r: &mut ReplicationManager)
        ensures
            *r == old(self).spec_replication(),
            final(self).spec_replication() == *final(r),
            final(self).spec_config() == old(self).spec_config(),
            final(self).spec_stores() == old(self).spec_stores(),
            final(self).spec_cluster() == old(self).spec_cluster(),
            final(self).spec_sequencer() == old(self).spec_sequencer(),
            old(self).wf() && final(r).wf() ==> final(self).wf(),
    {
        &mut self.replication
    }

    /// The replication manager.
    pub fn replication(&self) -> (r: &ReplicationManager)
        ensures
            *r == self.spec_replication(),
    {
        &self.replication
    }

    /// The sequencer, for taking partitions over and sealing epochs: what
    /// is done through the reference is done to the server's sequencer.
    pub fn sequencer_mut(&mut self) -> (r: &mut Sequencer)
        ensures
            *r == old(self).spec_sequencer(),
            final(self).spec_sequencer() == *final(r),
            final(self).spec_config() == old(self).spec_config(),
            final(self).spec_stores() == old(self).spec_stores(),
            final(self).spec_cluster() == old(self).spec_cluster(),
            final(self).spec_replication() == old(self).spec_replication(),
            old(self).wf() ==> final(self).wf(),
    {
        &mut self.sequencer
    }

    /// The sequencer.
    pub fn sequencer(&self) -> (r: &Sequencer)
        ensures
            *r == self.spec_sequencer(),
    {
        &self.sequencer
    }

    /// Whether the answer to a produce request for `partition` whose last
    /// record has the offset `last_offset` may leave. A request that asks
    /// for the acknowledgement of all waits until a write quorum of the
    /// partition's copyset has reached that offset; any other request is
    /// answered at once, the leader's flush being done when `produce`
    /// returns.
    pub fn acknowledged(&self, partition: PartitionId, acks: AckMode, last_offset: LogOffset) -> (r:
        bool)
        requires
            self.wf(),
        ensures
            r == (acks is All ==> self.spec_replication().spec_copysets().contains_key(partition.0)
                && crate::replication::sync::ready_count(
                self.spec_replication().spec_sync().spec_offsets(),
                self.spec_replication().spec_copysets()[partition.0].nodes@,
                last_offset.0,
                self.spec_replication().spec_copysets()[partition.0].nodes@.len() as int,
            ) >= self.spec_replication().spec_config().quorum.write_quorum),
    {
        match acks {
            AckMode::All => self.replication.copyset_reached(partition, last_offset),
            _ => true,
        }
    }

    /// The cluster's metadata.
    pub fn cluster(&self) -> (r: &ClusterManager)
        ensures
            *r == self.spec_cluster(),
    {
        &self.cluster
    }
}

/// Where the search for a store ends: at the first store of the partition,
/// or at the end.
pub proof fn lemma_store_position(
    stores: Seq<PartitionStore>,
    namespace: Seq<char>,
    name: Seq<char>,
    partition: u32,
    from: int,
)
    requires
        0 <= from <= stores.len(),
    ensures
        from <= store_position(stores, namespace, name, partition, from) <= stores.len(),
        store_position(stores, namespace, name, partition, from) < stores.len() ==> is_store(
            stores[store_position(stores, namespace, name, partition, from)],
            namespace,
            name,
            partition,
        ),
    decreases stores.len() - from,
{
    if from < stores.len() && !is_store(stores[from], namespace, name, partition) {
        lemma_store_position(stores, namespace, name, partition, from + 1);
    }
}

} // verus!
