//! What replay tells the router of the simulated workers, and the router
//! settings that replay runs with.

use crate::protocols::{MockEngineArgs, RouterQueuePolicy};
use std::collections::HashMap;
use vstd::prelude::*;
use vstd::std_specs::hash::{group_hash_axioms, spec_keys_iter};
use vstd::std_specs::iter::IteratorSpec;

verus! {

/// Token budget of a batch where the engine sets none.
pub const DEFAULT_MAX_BATCHED_TOKENS: u64 = 10_000_000;

/// One half, as the bit pattern of a double: what a shared block beyond the
/// device prefix counts by default.
pub const HALF_CREDIT_BITS: u64 = 0x3FE0_0000_0000_0000;

/// Under which name replay appears at the router.
pub const REPLAY_WORKER_TYPE: &'static str = "replay";

/// Seed of the worker selection in runs that must be repeatable.
pub const CANONICAL_SELECTOR_SEED: u64 = 0xD1A0_5EED;

/// What the router knows of a worker.
#[derive(Clone, Copy, Debug, PartialEq, Eq, Structural)]
pub struct ReplayWorkerConfig {
    pub max_num_batched_tokens: u64,
    pub total_kv_blocks: u64,
    pub data_parallel_start_rank: u32,
    pub data_parallel_size: u32,
}

impl ReplayWorkerConfig {
    pub fn data_parallel_start_rank(&self) -> (rank: u32)
        ensures
            rank == self.data_parallel_start_rank,
    {
        self.data_parallel_start_rank
    }

    pub fn data_parallel_size(&self) -> (size: u32)
        ensures
            size == self.data_parallel_size,
    {
        self.data_parallel_size
    }

    pub fn max_num_batched_tokens(&self) -> (tokens: Option<u64>)
        ensures
            tokens == Some(self.max_num_batched_tokens),
    {
        Some(self.max_num_batched_tokens)
    }

    pub fn total_kv_blocks(&self) -> (blocks: Option<u64>)
        ensures
            blocks == Some(self.total_kv_blocks),
    {
        Some(self.total_kv_blocks)
    }
}

/// Router settings. `R` stands for the settings that replay passes on as they
/// are.
#[derive(Debug)]
pub struct KvRouterConfig<R> {
    /// What a shared block beyond the device prefix counts, as the bit pattern
    /// of a double.
    pub shared_cache_multiplier: u64,
    pub router_queue_policy: RouterQueuePolicy,
    pub rest: R,
}

/// How an engine with these settings looks to the router.
pub open spec fn worker_config(args: MockEngineArgs) -> ReplayWorkerConfig {
    ReplayWorkerConfig {
        max_num_batched_tokens: match args.max_num_batched_tokens {
            Some(tokens) => tokens as u64,
            None => DEFAULT_MAX_BATCHED_TOKENS,
        },
        total_kv_blocks: args.num_gpu_blocks as u64,
        data_parallel_start_rank: 0,
        data_parallel_size: if args.dp_size == 0 {
            1
        } else {
            args.dp_size
        },
    }
}

pub fn replay_worker_config(args: &MockEngineArgs) -> (config: ReplayWorkerConfig)
    ensures
        config == worker_config(*args),
{
    ReplayWorkerConfig {
        max_num_batched_tokens: match args.max_num_batched_tokens {
            Some(tokens) => tokens as u64,
            None => DEFAULT_MAX_BATCHED_TOKENS,
        },
        total_kv_blocks: args.num_gpu_blocks as u64,
        data_parallel_start_rank: 0,
        data_parallel_size: if args.dp_size > 1 {
            args.dp_size
        } else {
            1
        },
    }
}

/// The workers of a replay: numbered from zero, all alike.
pub open spec fn replay_workers(args: MockEngineArgs, num_workers: int) -> Map<
    u64,
    ReplayWorkerConfig,
> {
    Map::new(|worker: u64| worker < num_workers, |worker: u64| worker_config(args))
}

pub fn replay_workers_with_configs(args: &MockEngineArgs, num_workers: usize) -> (workers: HashMap<
    u64,
    ReplayWorkerConfig,
>)
    ensures
        workers@ == replay_workers(*args, num_workers as int),
{
    broadcast use group_hash_axioms;

    let config = replay_worker_config(args);
    let mut workers: HashMap<u64, ReplayWorkerConfig> = HashMap::new();
    let mut index: usize = 0;
    assert(workers@ =~= replay_workers(*args, 0));
    while index < num_workers
        invariant
            index <= num_workers,
            config == worker_config(*args),
            workers@ == replay_workers(*args, index as int),
        decreases num_workers - index,
    {
        workers.insert(index as u64, config);
        assert(workers@ =~= replay_workers(*args, index + 1));
        index = index + 1;
    }
    workers
}

/// The first rank and the number of ranks of each worker.
pub open spec fn rank_ranges(workers: Map<u64, ReplayWorkerConfig>) -> Map<u64, (u32, u32)> {
    workers.map_values(
        |config: ReplayWorkerConfig|
            (config.data_parallel_start_rank, config.data_parallel_size),
    )
}

/// The ranks for which the router keeps slots.
fn replay_dp_range(workers_with_configs: &HashMap<u64, ReplayWorkerConfig>) -> (ranges: HashMap<
    u64,
    (u32, u32),
>)
    ensures
        ranges@ == rank_ranges(workers_with_configs@),
{
    broadcast use group_hash_axioms;

    let mut ranges: HashMap<u64, (u32, u32)> = HashMap::new();
    let ghost keys = spec_keys_iter(workers_with_configs).remaining().unref();
    let ghost all = workers_with_configs@;
    for worker_id in it: workers_with_configs.keys()
        invariant
            it.seq().unref() == keys,
            keys.to_set() == all.dom(),
            workers_with_configs@ == all,
            forall|w: u64| #[trigger]
                ranges@.contains_key(w) <==> keys.take(it.index()).contains(w),
            forall|w: u64| #[trigger]
                ranges@.contains_key(w) ==> ranges@[w] == rank_ranges(all)[w],
    {
        proof {
            assert(keys[it.index()] == *worker_id);
            assert(keys.to_set().contains(*worker_id));
            assert(keys.take(it.index() + 1) =~= keys.take(it.index()).push(*worker_id));
            assert(forall|w: u64| #[trigger]
                keys.take(it.index() + 1).contains(w) <==> keys.take(it.index()).contains(w) || w
                    == *worker_id) by {
                broadcast use vstd::seq_lib::group_seq_properties;

            }
        }
        if let Some(config) = workers_with_configs.get(worker_id) {
            ranges.insert(
                *worker_id,
                (config.data_parallel_start_rank, config.data_parallel_size),
            );
        }
    }
    proof {
        assert(keys.take(keys.len() as int) =~= keys);
        assert forall|w: u64| keys.contains(w) <==> #[trigger] all.contains_key(w) by {
            assert(keys.to_set().contains(w) <==> all.dom().contains(w));
        }
        assert(ranges@ =~= rank_ranges(all));
    }
    ranges
}

/// What the router's tracker of active sequences is made with.
#[derive(Debug)]
pub struct ReplaySlots {
    pub block_size: usize,
    /// The first rank and the number of ranks of each worker.
    pub dp_range: HashMap<u64, (u32, u32)>,
    pub replica_sync: bool,
    pub router_id: u64,
    pub worker_type: &'static str,
    /// Whether sequences are dropped after some wall-clock time. Replay retires
    /// requests by their own events alone: a healthy replay may spend minutes of
    /// wall time on seconds of virtual time.
    pub expiry: bool,
}

/// The slots of a replay on engines with these settings.
pub open spec fn slots_of(
    slots: ReplaySlots,
    args: MockEngineArgs,
    workers: Map<u64, ReplayWorkerConfig>,
) -> bool {
    &&& slots.block_size == args.block_size
    &&& slots.dp_range@ == rank_ranges(workers)
    &&& !slots.replica_sync
    &&& slots.router_id == 0
    &&& slots.worker_type@ == REPLAY_WORKER_TYPE@
    &&& !slots.expiry
}

pub fn replay_slots(
    args: &MockEngineArgs,
    workers_with_configs: &HashMap<u64, ReplayWorkerConfig>,
) -> (slots: ReplaySlots)
    ensures
        slots_of(slots, *args, workers_with_configs@),
        slots.block_size == args.block_size,
        slots.dp_range@ == rank_ranges(workers_with_configs@),
        !slots.replica_sync,
        slots.router_id == 0,
        slots.worker_type@ == REPLAY_WORKER_TYPE@,
        !slots.expiry,
{
    ReplaySlots {
        block_size: args.block_size,
        dp_range: replay_dp_range(workers_with_configs),
        replica_sync: false,
        router_id: 0,
        worker_type: REPLAY_WORKER_TYPE,
        expiry: false,
    }
}

/// What the router's worker selection is made with.
#[derive(Debug)]
pub struct ReplaySelector<R> {
    pub config: KvRouterConfig<R>,
    pub worker_type: &'static str,
    /// The seed of a repeatable selection.
    pub seed: Option<u64>,
}

/// The selection of a replay with this configuration.
pub open spec fn selector_of<R>(
    selector: ReplaySelector<R>,
    config: KvRouterConfig<R>,
    canonical_replay: bool,
) -> bool {
    &&& selector.config == config
    &&& selector.worker_type@ == REPLAY_WORKER_TYPE@
    &&& selector.seed == if canonical_replay {
        Some(CANONICAL_SELECTOR_SEED)
    } else {
        None
    }
}

/// `canonical_replay` says that the run must be repeatable.
pub fn replay_selector<R>(config: KvRouterConfig<R>, canonical_replay: bool) -> (selector:
    ReplaySelector<R>)
    ensures
        selector_of(selector, config, canonical_replay),
        selector.config == config,
        selector.worker_type@ == REPLAY_WORKER_TYPE@,
        selector.seed == if canonical_replay {
            Some(CANONICAL_SELECTOR_SEED)
        } else {
            None
        },
{
    ReplaySelector {
        config,
        worker_type: REPLAY_WORKER_TYPE,
        seed: if canonical_replay {
            Some(CANONICAL_SELECTOR_SEED)
        } else {
            None
        },
    }
}

/// The engine simulates the cache hierarchy.
pub open spec fn has_hicache(args: MockEngineArgs) -> bool {
    args.sglang matches Some(sglang) && sglang.hicache is Some
}

/// The settings that replay runs the router with.
pub open spec fn effective_config<R>(
    args: MockEngineArgs,
    router_config: Option<KvRouterConfig<R>>,
    default: KvRouterConfig<R>,
) -> KvRouterConfig<R> {
    let chosen = match router_config {
        Some(config) => config,
        None => if has_hicache(args) {
            KvRouterConfig { shared_cache_multiplier: HALF_CREDIT_BITS, ..default }
        } else {
            default
        },
    };
    match args.router_queue_policy {
        Some(policy) => KvRouterConfig { router_queue_policy: policy, ..chosen },
        None => chosen,
    }
}

/// Settles the router settings. `default` are the router's own defaults.
///
/// Without explicit settings, shared blocks beyond the device prefix get half
/// credit where the engine simulates the cache hierarchy. The engine's queue
/// policy prevails in any case.
pub fn replay_router_config<R>(
    args: &MockEngineArgs,
    router_config: Option<KvRouterConfig<R>>,
    default: KvRouterConfig<R>,
) -> (config: KvRouterConfig<R>)
    ensures
        config == effective_config(*args, router_config, default),
{
    let hicache: bool = match args.sglang {
        Some(sglang) => sglang.hicache.is_some(),
        None => false,
    };
    let mut config = match router_config {
        Some(config) => config,
        None => {
            let mut config = default;
            if hicache {
                config.shared_cache_multiplier = HALF_CREDIT_BITS;
            }
            config
        },
    };
    if let Some(policy) = args.router_queue_policy {
        config.router_queue_policy = policy;
    }
    config
}

/// Law: the settled settings, given explicitly, stay as they are, so that a
/// record of them reproduces the run.
pub proof fn law_settled_config_is_stable<R>(
    args: MockEngineArgs,
    router_config: Option<KvRouterConfig<R>>,
    default: KvRouterConfig<R>,
    other_default: KvRouterConfig<R>,
)
    ensures
        ({
            let settled = effective_config(args, router_config, default);
            effective_config(args, Some(settled), other_default) == settled
        }),
{
}

/// Law: an explicit weight of shared blocks is never overridden.
pub proof fn law_explicit_weight_prevails<R>(
    args: MockEngineArgs,
    config: KvRouterConfig<R>,
    default: KvRouterConfig<R>,
)
    ensures
        effective_config(args, Some(config), default).shared_cache_multiplier
            == config.shared_cache_multiplier,
        effective_config(args, Some(config), default).rest == config.rest,
{
}

/// Law: the router keeps slots for exactly the ranks of the replay's workers,
/// from zero on and at least one each.
pub proof fn law_every_worker_has_a_rank(args: MockEngineArgs, num_workers: int, worker: u64)
    ensures
        ({
            let ranges = rank_ranges(replay_workers(args, num_workers));
            &&& ranges.contains_key(worker) <==> worker < num_workers
            &&& worker < num_workers ==> ranges[worker].0 == 0 && ranges[worker].1 >= 1
                && ranges[worker].1 >= args.dp_size
        }),
{
}

} // verus!
