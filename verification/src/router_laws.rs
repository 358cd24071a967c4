//! What replay tells the router, told by the engine's settings.

use crate::protocols::{MockEngineArgs, RouterQueuePolicy};
use crate::router_shared::{
    effective_config, rank_ranges, replay_workers, selector_of, slots_of, worker_config,
    KvRouterConfig, ReplaySelector, ReplaySlots, ReplayWorkerConfig,
};
use vstd::prelude::*;

verus! {

/// Law: the engine's queue policy, where set, is the policy of the settled
/// configuration, whatever else the engine simulates; else it is that of the
/// explicit configuration, or of the default.
pub proof fn law_queue_policy_of_the_engine_prevails<R>(
    args: MockEngineArgs,
    router_config: Option<KvRouterConfig<R>>,
    default: KvRouterConfig<R>,
    policy: RouterQueuePolicy,
)
    ensures
        args.router_queue_policy == Some(policy) ==> effective_config(
            args,
            router_config,
            default,
        ).router_queue_policy == policy,
        args.router_queue_policy is None && router_config is Some ==> effective_config(
            args,
            router_config,
            default,
        ).router_queue_policy == router_config->0.router_queue_policy,
        args.router_queue_policy is None && router_config is None ==> effective_config(
            args,
            router_config,
            default,
        ).router_queue_policy == default.router_queue_policy,
{
}

/// Law: shared blocks weigh what the explicit configuration says; without one,
/// one half where the engine simulates the cache hierarchy, and else what the
/// default says. The bits are those of the double 0.5.
pub proof fn law_weight_of_shared_blocks<R>(
    args: MockEngineArgs,
    router_config: Option<KvRouterConfig<R>>,
    default: KvRouterConfig<R>,
)
    ensures
        router_config is Some ==> effective_config(
            args,
            router_config,
            default,
        ).shared_cache_multiplier == router_config->0.shared_cache_multiplier,
        router_config is None && args.sglang is Some && args.sglang->0.hicache is Some
            ==> effective_config(args, router_config, default).shared_cache_multiplier
            == 0x3FE0_0000_0000_0000,
        router_config is None && (args.sglang is None || args.sglang->0.hicache is None)
            ==> effective_config(args, router_config, default).shared_cache_multiplier
            == default.shared_cache_multiplier,
{
}

/// Law: every other setting is that of the explicit configuration, or of the
/// default.
pub proof fn law_other_settings_are_passed_on<R>(
    args: MockEngineArgs,
    router_config: Option<KvRouterConfig<R>>,
    default: KvRouterConfig<R>,
)
    ensures
        router_config is Some ==> effective_config(args, router_config, default).rest
            == router_config->0.rest,
        router_config is None ==> effective_config(args, router_config, default).rest
            == default.rest,
{
}

/// Law: two engines that agree on the queue policy and on whether they simulate
/// the hierarchy have the same settled configuration.
pub proof fn law_settled_config_depends_on_two_settings<R>(
    a: MockEngineArgs,
    b: MockEngineArgs,
    router_config: Option<KvRouterConfig<R>>,
    default: KvRouterConfig<R>,
)
    requires
        a.router_queue_policy == b.router_queue_policy,
        (a.sglang is Some && a.sglang->0.hicache is Some) == (b.sglang is Some
            && b.sglang->0.hicache is Some),
    ensures
        effective_config(a, router_config, default) == effective_config(b, router_config, default),
{
}

/// Law: a worker's batch budget is that of the engine, or ten million tokens; its
/// capacity is the engine's blocks; its ranks start at zero and number those of
/// the engine, one at least.
pub proof fn law_worker_config_follows_the_engine(args: MockEngineArgs, tokens: usize)
    ensures
        args.max_num_batched_tokens == Some(tokens) ==> worker_config(
            args,
        ).max_num_batched_tokens == tokens,
        args.max_num_batched_tokens is None ==> worker_config(args).max_num_batched_tokens
            == 10_000_000,
        worker_config(args).total_kv_blocks == args.num_gpu_blocks,
        worker_config(args).data_parallel_start_rank == 0,
        worker_config(args).data_parallel_size >= 1,
        args.dp_size >= 1 ==> worker_config(args).data_parallel_size == args.dp_size,
        args.dp_size == 0 ==> worker_config(args).data_parallel_size == 1,
{
}

/// Law: the workers of a replay are numbered from zero without a gap, and all
/// have the configuration of the engine.
pub proof fn law_workers_are_numbered(args: MockEngineArgs, num_workers: int, worker: u64)
    ensures
        replay_workers(args, num_workers).contains_key(worker) <==> worker < num_workers,
        worker < num_workers ==> replay_workers(args, num_workers)[worker] == worker_config(args),
{
}

/// Law: each worker has its own first rank and number of ranks in the ranges, and
/// no one else has any.
pub proof fn law_ranges_follow_the_workers(workers: Map<u64, ReplayWorkerConfig>, worker: u64)
    ensures
        rank_ranges(workers).contains_key(worker) <==> workers.contains_key(worker),
        workers.contains_key(worker) ==> rank_ranges(workers)[worker].0
            == workers[worker].data_parallel_start_rank && rank_ranges(workers)[worker].1
            == workers[worker].data_parallel_size,
{
}

/// Law: slots have the engine's block size and the ranks of the workers; they are
/// not shared with other routers, belong to router zero, and never expire.
pub proof fn law_slots_never_expire(
    slots: ReplaySlots,
    args: MockEngineArgs,
    workers: Map<u64, ReplayWorkerConfig>,
    worker: u64,
)
    requires
        slots_of(slots, args, workers),
    ensures
        !slots.expiry,
        !slots.replica_sync,
        slots.router_id == 0,
        slots.worker_type@ == "replay"@,
        slots.block_size == args.block_size,
        slots.dp_range@.contains_key(worker) <==> workers.contains_key(worker),
        workers.contains_key(worker) ==> slots.dp_range@[worker] == (
            workers[worker].data_parallel_start_rank,
            workers[worker].data_parallel_size,
        ),
{
}

/// Law: the selection has the given configuration, and a seed exactly in runs that
/// must be repeatable, always the same.
pub proof fn law_selection_is_seeded_for_repeatable_runs<R>(
    selector: ReplaySelector<R>,
    config: KvRouterConfig<R>,
    canonical_replay: bool,
)
    requires
        selector_of(selector, config, canonical_replay),
    ensures
        selector.config == config,
        selector.worker_type@ == "replay"@,
        selector.seed is Some <==> canonical_replay,
        selector.seed matches Some(seed) ==> seed == 0xD1A0_5EED,
{
}

} // verus!
