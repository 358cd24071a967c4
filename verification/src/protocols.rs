//! Plain values that the cache model reads: page hashes, workers, router
//! events and the cache configuration.

use vstd::prelude::*;

verus! {

/// Hash that identifies a page by its whole prefix.
#[derive(Clone, Copy, Debug, PartialEq, Eq, Structural)]
pub struct ExternalSequenceBlockHash(pub u64);

/// Hash of the tokens of one block alone.
#[derive(Clone, Copy, Debug, PartialEq, Eq, Structural)]
pub struct LocalBlockHash(pub u64);

/// One data-parallel rank of a worker.
#[derive(Clone, Copy, Debug, PartialEq, Eq, Structural)]
pub struct WorkerWithDpRank {
    pub worker_id: u64,
    pub dp_rank: u32,
}

impl WorkerWithDpRank {
    pub fn new(worker_id: u64, dp_rank: u32) -> (worker: Self)
        ensures
            worker == (WorkerWithDpRank { worker_id, dp_rank }),
    {
        WorkerWithDpRank { worker_id, dp_rank }
    }
}

/// Tier that a router event speaks of.
#[derive(Clone, Copy, Debug, PartialEq, Eq, Structural)]
pub enum StorageTier {
    Device,
    HostPinned,
    Disk,
    External,
}

#[derive(Clone, Copy, Debug)]
pub struct KvCacheStoredBlockData {
    pub block_hash: ExternalSequenceBlockHash,
    pub tokens_hash: LocalBlockHash,
}

#[derive(Debug)]
pub struct KvCacheStoreData {
    pub parent_hash: Option<ExternalSequenceBlockHash>,
    pub start_position: Option<u32>,
    pub blocks: Vec<KvCacheStoredBlockData>,
}

#[derive(Debug)]
pub struct KvCacheRemoveData {
    pub block_hashes: Vec<ExternalSequenceBlockHash>,
}

#[derive(Debug)]
pub enum KvCacheEventData {
    Stored(KvCacheStoreData),
    Removed(KvCacheRemoveData),
    Cleared,
}

#[derive(Debug)]
pub struct KvCacheEvent {
    pub event_id: u64,
    pub data: KvCacheEventData,
    pub dp_rank: u32,
}

/// A cache event as a worker publishes it.
#[derive(Debug)]
pub struct RouterEvent {
    pub worker_id: u64,
    pub storage_tier: StorageTier,
    pub event: KvCacheEvent,
    /// Whether the event travels on the metadata sideband, which reports the
    /// trailing state of a page and not the page itself.
    pub hicache_metadata: bool,
}

impl RouterEvent {
    /// An ordinary cache event, which is not on the metadata sideband.
    pub fn with_storage_tier(worker_id: u64, event: KvCacheEvent, storage_tier: StorageTier) -> (r:
        Self)
        ensures
            r == (RouterEvent { worker_id, storage_tier, event, hicache_metadata: false }),
    {
        RouterEvent { worker_id, storage_tier, event, hicache_metadata: false }
    }

    /// The rank that published the event.
    pub open spec fn source(self) -> WorkerWithDpRank {
        WorkerWithDpRank { worker_id: self.worker_id, dp_rank: self.event.dp_rank }
    }
}

/// The page hashes of a stored event, in order.
pub open spec fn stored_hashes(store: KvCacheStoreData) -> Seq<u64> {
    store.blocks@.map_values(|b: KvCacheStoredBlockData| b.block_hash.0)
}

/// The integers that a sequence of page hashes holds.
pub open spec fn hash_values(hashes: Seq<ExternalSequenceBlockHash>) -> Seq<u64> {
    hashes.map_values(|h: ExternalSequenceBlockHash| h.0)
}

/// Block positions from `start` up to, but not including, `end`.
#[derive(Clone, Copy, Debug, PartialEq, Eq, Structural)]
pub struct HitRange {
    pub start: u32,
    pub end: u32,
}

/// Which block positions of a request a shared cache holds.
#[derive(Debug)]
pub struct SharedCacheHits {
    pub ranges: Vec<HitRange>,
    pub total_hits: u32,
}

/// When pages are copied from the device to the host tier.
#[derive(Clone, Copy, Debug, PartialEq, Eq, Structural)]
pub enum SglangHiCacheWritePolicy {
    /// When the device drops the page.
    WriteBack,
    /// As soon as the device stores the page.
    WriteThrough,
}

#[derive(Clone, Copy, Debug, PartialEq, Eq, Structural)]
pub enum SglangHiCacheStorageLayout {
    Dsv4FlashTp4AttnCp4Fp32,
}

/// Sizes and policy of the cache hierarchy.
#[derive(Clone, Copy, Debug, PartialEq, Eq, Structural)]
pub struct SglangHiCacheArgs {
    pub write_policy: SglangHiCacheWritePolicy,
    pub l1_swa_capacity_tokens: usize,
    pub l2_full_capacity_tokens: usize,
    pub l2_swa_capacity_tokens: usize,
    pub l3_capacity_gib: u64,
    pub io_tokens_per_second: u64,
    pub storage_layout: SglangHiCacheStorageLayout,
}

/// Order in which a router serves the requests that wait.
#[derive(Clone, Copy, Debug, PartialEq, Eq, Structural)]
pub enum RouterQueuePolicy {
    Fcfs,
    Lcfs,
    Wspt,
}

/// Engine settings that only SGLang engines have.
#[derive(Clone, Copy, Debug, PartialEq, Eq, Structural)]
pub struct SglangArgs {
    pub chunked_prefill_size: Option<usize>,
    pub hicache: Option<SglangHiCacheArgs>,
}

/// The settings of a simulated engine that replay reads.
#[derive(Clone, Copy, Debug, PartialEq, Eq, Structural)]
pub struct MockEngineArgs {
    pub block_size: usize,
    pub num_gpu_blocks: usize,
    pub max_num_batched_tokens: Option<usize>,
    pub dp_size: u32,
    pub router_queue_policy: Option<RouterQueuePolicy>,
    pub sglang: Option<SglangArgs>,
}

} // verus!
