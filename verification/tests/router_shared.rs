use hicache_replay::protocols::{
    MockEngineArgs, RouterQueuePolicy, SglangArgs, SglangHiCacheArgs, SglangHiCacheStorageLayout,
    SglangHiCacheWritePolicy,
};
use hicache_replay::router_shared::{
    replay_router_config, replay_selector, replay_slots, replay_worker_config,
    replay_workers_with_configs, KvRouterConfig,
};

fn hicache_args() -> MockEngineArgs {
    MockEngineArgs {
        block_size: 256,
        num_gpu_blocks: 1024,
        max_num_batched_tokens: None,
        dp_size: 1,
        router_queue_policy: None,
        sglang: Some(SglangArgs {
            chunked_prefill_size: None,
            hicache: Some(SglangHiCacheArgs {
                write_policy: SglangHiCacheWritePolicy::WriteBack,
                l1_swa_capacity_tokens: 256,
                l2_full_capacity_tokens: 256,
                l2_swa_capacity_tokens: 256,
                l3_capacity_gib: 1,
                io_tokens_per_second: 160_000,
                storage_layout: SglangHiCacheStorageLayout::Dsv4FlashTp4AttnCp4Fp32,
            }),
        }),
    }
}

fn router_config(multiplier: f64) -> KvRouterConfig<&'static str> {
    KvRouterConfig {
        shared_cache_multiplier: multiplier.to_bits(),
        router_queue_policy: RouterQueuePolicy::Fcfs,
        rest: "rest",
    }
}

fn multiplier(config: &KvRouterConfig<&'static str>) -> f64 {
    f64::from_bits(config.shared_cache_multiplier)
}

#[test]
fn hicache_default_router_credits_shared_prefix() {
    let args = hicache_args();
    let config = replay_router_config(&args, None, router_config(0.0));
    assert_eq!(multiplier(&config), 0.5);
    // The effective configuration, given explicitly, reproduces itself.
    let recorded = replay_router_config(&args, Some(config), router_config(0.0));
    assert_eq!(
        multiplier(&recorded),
        0.5,
        "canonical provenance must record the effective runtime default"
    );
    assert_eq!(recorded.rest, "rest");
}

#[test]
fn explicit_router_config_controls_shared_prefix_weight() {
    let explicit = router_config(0.25);
    let config = replay_router_config(&hicache_args(), Some(explicit), router_config(0.0));
    assert_eq!(multiplier(&config), 0.25);
}

#[test]
fn engines_without_hierarchy_keep_the_default_weight() {
    let without = MockEngineArgs {
        sglang: Some(SglangArgs {
            chunked_prefill_size: None,
            hicache: None,
        }),
        ..hicache_args()
    };
    let config = replay_router_config(&without, None, router_config(0.125));
    assert_eq!(multiplier(&config), 0.125);
    let other_engine = MockEngineArgs {
        sglang: None,
        ..hicache_args()
    };
    let config = replay_router_config(&other_engine, None, router_config(0.125));
    assert_eq!(multiplier(&config), 0.125);
}

#[test]
fn queue_policy_of_the_engine_prevails() {
    let args = MockEngineArgs {
        router_queue_policy: Some(RouterQueuePolicy::Wspt),
        ..hicache_args()
    };
    for explicit in [None, Some(router_config(0.25))] {
        let config = replay_router_config(&args, explicit, router_config(0.0));
        assert_eq!(config.router_queue_policy, RouterQueuePolicy::Wspt);
    }
    let config = replay_router_config(&hicache_args(), None, router_config(0.0));
    assert_eq!(config.router_queue_policy, RouterQueuePolicy::Fcfs);
}

#[test]
fn worker_config_follows_the_engine() {
    let config = replay_worker_config(&hicache_args());
    assert_eq!(config.max_num_batched_tokens(), Some(10_000_000));
    assert_eq!(config.total_kv_blocks(), Some(1024));
    assert_eq!(config.data_parallel_start_rank(), 0);
    assert_eq!(config.data_parallel_size(), 1);
    let config = replay_worker_config(&MockEngineArgs {
        max_num_batched_tokens: Some(4096),
        dp_size: 0,
        ..hicache_args()
    });
    assert_eq!(config.max_num_batched_tokens(), Some(4096));
    assert_eq!(config.data_parallel_size(), 1);
}

#[test]
fn every_worker_has_its_ranks() {
    let args = MockEngineArgs {
        dp_size: 4,
        ..hicache_args()
    };
    let workers = replay_workers_with_configs(&args, 3);
    assert_eq!(workers.len(), 3);
    assert_eq!(workers[&2], replay_worker_config(&args));
    let slots = replay_slots(&args, &workers);
    assert_eq!(slots.block_size, 256);
    assert_eq!(slots.dp_range.len(), 3);
    for worker_id in 0..3 {
        assert_eq!(slots.dp_range[&worker_id], (0, 4));
    }
    assert!(!slots.replica_sync);
    assert_eq!(slots.router_id, 0);
    assert_eq!(slots.worker_type, "replay");
    assert!(!slots.expiry);
    assert!(replay_workers_with_configs(&args, 0).is_empty());
}

#[test]
fn repeatable_runs_seed_the_selection() {
    let selector = replay_selector(router_config(0.25), true);
    assert_eq!(selector.seed, Some(0xD1A0_5EED));
    assert_eq!(selector.worker_type, "replay");
    let selector = replay_selector(router_config(0.25), false);
    assert_eq!(selector.seed, None);
    assert_eq!(multiplier(&selector.config), 0.25);
}
