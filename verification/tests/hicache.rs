use hicache_replay::geometry::{
    ComponentMask, DSV4_FULL_BUNDLE_BYTES_PER_PAGE, DSV4_REGULAR_BYTES_PER_PAGE,
};
use hicache_replay::hicache::SglangHiCacheState;
use hicache_replay::protocols::{
    ExternalSequenceBlockHash, HitRange, KvCacheEvent, KvCacheEventData, KvCacheRemoveData,
    KvCacheStoreData, KvCacheStoredBlockData, LocalBlockHash, RouterEvent, SglangHiCacheArgs,
    SglangHiCacheStorageLayout, SglangHiCacheWritePolicy, StorageTier, WorkerWithDpRank,
};

const FULL: ComponentMask = ComponentMask {
    regular: true,
    trailing: true,
};

const REGULAR: ComponentMask = ComponentMask {
    regular: true,
    trailing: false,
};

fn config(policy: SglangHiCacheWritePolicy, l3_capacity_gib: u64) -> SglangHiCacheArgs {
    SglangHiCacheArgs {
        write_policy: policy,
        l1_swa_capacity_tokens: 256,
        l2_full_capacity_tokens: 512,
        l2_swa_capacity_tokens: 256,
        l3_capacity_gib,
        io_tokens_per_second: 160_000,
        storage_layout: SglangHiCacheStorageLayout::Dsv4FlashTp4AttnCp4Fp32,
    }
}

fn event(worker_id: u64, data: KvCacheEventData) -> RouterEvent {
    RouterEvent::with_storage_tier(
        worker_id,
        KvCacheEvent {
            event_id: 1,
            data,
            dp_rank: 0,
        },
        StorageTier::Device,
    )
}

fn metadata(worker_id: u64, data: KvCacheEventData) -> RouterEvent {
    RouterEvent {
        hicache_metadata: true,
        ..event(worker_id, data)
    }
}

fn stored(hashes: &[u64]) -> KvCacheEventData {
    let mut blocks = Vec::new();
    for &hash in hashes {
        blocks.push(KvCacheStoredBlockData {
            block_hash: ExternalSequenceBlockHash(hash),
            tokens_hash: LocalBlockHash(hash),
        });
    }
    KvCacheEventData::Stored(KvCacheStoreData {
        parent_hash: None,
        start_position: None,
        blocks,
    })
}

fn removed(hashes: &[u64]) -> KvCacheEventData {
    let mut block_hashes = Vec::new();
    for &hash in hashes {
        block_hashes.push(ExternalSequenceBlockHash(hash));
    }
    KvCacheEventData::Removed(KvCacheRemoveData { block_hashes })
}

#[test]
fn write_back_waits_for_device_removal() {
    let mut state = SglangHiCacheState::new(config(SglangHiCacheWritePolicy::WriteBack, 1), 256);
    let worker = WorkerWithDpRank::new(7, 0);
    let hash = ExternalSequenceBlockHash(11);
    let components = ComponentMask {
        regular: true,
        trailing: true,
    };
    state
        .worker_mut(worker)
        .mark_device_stored(hash, components);
    assert_eq!(state.shared_hits(&[hash]).total_hits, 0);
    assert_eq!(state.backup(worker, hash, components), 256);
    assert_eq!(state.shared_hits(&[hash]).total_hits, 1);
}

#[test]
fn write_through_stores_complete_physical_bundle_per_page() {
    let mut state = SglangHiCacheState::new(config(SglangHiCacheWritePolicy::WriteThrough, 1), 256);
    let hash = ExternalSequenceBlockHash(11);
    let event = RouterEvent::with_storage_tier(
        7,
        KvCacheEvent {
            event_id: 1,
            data: KvCacheEventData::Stored(KvCacheStoreData {
                parent_hash: None,
                start_position: None,
                blocks: vec![KvCacheStoredBlockData {
                    block_hash: hash,
                    tokens_hash: LocalBlockHash(11),
                }],
            }),
            dp_rank: 0,
        },
        StorageTier::Device,
    );

    assert_eq!(state.apply_router_event(&event), 256);
    let report = state.report();
    assert_eq!(report.l3.used_bytes, DSV4_FULL_BUNDLE_BYTES_PER_PAGE);
    assert_eq!(report.l3.inserted_bytes, DSV4_FULL_BUNDLE_BYTES_PER_PAGE);
    assert_eq!(report.l3.final_regular_pages, 1);
    assert_eq!(report.l3.final_trailing_pages, 1);
}

#[test]
fn zero_l3_capacity_keeps_local_write_through_io() {
    let mut state = SglangHiCacheState::new(config(SglangHiCacheWritePolicy::WriteThrough, 0), 256);
    let event = RouterEvent::with_storage_tier(
        7,
        KvCacheEvent {
            event_id: 1,
            data: KvCacheEventData::Stored(KvCacheStoreData {
                parent_hash: None,
                start_position: None,
                blocks: vec![KvCacheStoredBlockData {
                    block_hash: ExternalSequenceBlockHash(11),
                    tokens_hash: LocalBlockHash(11),
                }],
            }),
            dp_rank: 0,
        },
        StorageTier::Device,
    );

    assert_eq!(state.apply_router_event(&event), 256);
    let report = state.report();
    assert_eq!(report.l3.used_bytes, 0);
    assert_eq!(report.l3.rejected_bytes, DSV4_FULL_BUNDLE_BYTES_PER_PAGE);
    assert_eq!(report.d2h_tokens, 256);
}

#[test]
fn l3_prefetch_returns_only_the_prefix_admitted_to_l2() {
    let mut state = SglangHiCacheState::new(config(SglangHiCacheWritePolicy::WriteBack, 1), 256);
    let worker = WorkerWithDpRank::new(7, 0);
    let sequence = [
        ExternalSequenceBlockHash(1),
        ExternalSequenceBlockHash(2),
        ExternalSequenceBlockHash(3),
    ];
    let full = ComponentMask {
        regular: true,
        trailing: true,
    };
    for hash in sequence {
        assert!(state.l3_mut().put(hash, full));
    }

    // The host tier has room for only two regular pages, so staging a prefix of
    // three pages in order retains a tail but no usable prefix.
    assert_eq!(state.prefetch_selected_prefix(worker, &sequence, 0), 0);
    assert_eq!(state.report().l3_prefetched_pages, 0);
}

#[test]
fn prefetch_of_what_fits_is_admitted() {
    let mut state = SglangHiCacheState::new(config(SglangHiCacheWritePolicy::WriteBack, 1), 256);
    let worker = WorkerWithDpRank::new(7, 0);
    let sequence = [ExternalSequenceBlockHash(1), ExternalSequenceBlockHash(2)];
    for hash in sequence {
        assert!(state.l3_mut().put(hash, FULL));
    }
    assert_eq!(state.l2_extension_blocks(worker, &sequence, 0), 0);
    assert_eq!(state.prefetch_selected_prefix(worker, &sequence, 0), 2);
    assert_eq!(state.l2_extension_blocks(worker, &sequence, 0), 2);
    let report = state.report();
    assert_eq!(report.l3_prefetched_pages, 2);
    assert_eq!(report.final_l2_full_pages, 2);
    assert_eq!(report.final_l2_swa_pages, 1);
    assert_eq!(report.d2h_tokens, 0);
    // Nothing more is gained the second time.
    assert_eq!(state.prefetch_selected_prefix(worker, &sequence, 0), 2);
    assert_eq!(state.report().l3_prefetched_pages, 2);
}

#[test]
fn prefetch_never_reports_less_than_the_device_serves() {
    let mut state = SglangHiCacheState::new(config(SglangHiCacheWritePolicy::WriteBack, 1), 256);
    let worker = WorkerWithDpRank::new(7, 0);
    let sequence = [ExternalSequenceBlockHash(1), ExternalSequenceBlockHash(2)];
    assert_eq!(state.prefetch_selected_prefix(worker, &sequence, 2), 2);
    assert_eq!(state.prefetch_selected_prefix(worker, &[], 0), 0);
    assert_eq!(state.report().workers_with_l2_state, 1);
}

#[test]
fn prefetch_refreshes_the_shared_prefix() {
    let mut state = SglangHiCacheState::new(
        SglangHiCacheArgs {
            l2_full_capacity_tokens: 1024,
            ..config(SglangHiCacheWritePolicy::WriteBack, 1)
        },
        256,
    );
    // The shared tier holds 117 complete pages; the first is the oldest.
    for hash in 1..=117 {
        assert!(state.l3_mut().put(ExternalSequenceBlockHash(hash), FULL));
    }
    let worker = WorkerWithDpRank::new(7, 0);
    let first = [ExternalSequenceBlockHash(1)];
    assert_eq!(state.prefetch_selected_prefix(worker, &first, 0), 1);
    assert!(state.l3_mut().put(ExternalSequenceBlockHash(118), FULL));
    assert_eq!(state.shared_hits(&first).total_hits, 1);
    assert_eq!(
        state.shared_hits(&[ExternalSequenceBlockHash(2)]).total_hits,
        0
    );
}

#[test]
fn write_back_copies_what_the_device_had() {
    let mut state = SglangHiCacheState::new(config(SglangHiCacheWritePolicy::WriteBack, 1), 256);
    let hashes = [ExternalSequenceBlockHash(1), ExternalSequenceBlockHash(2)];
    let worker = WorkerWithDpRank::new(7, 0);
    assert_eq!(state.apply_router_event(&event(7, stored(&[1, 2]))), 0);
    assert_eq!(state.apply_router_event(&metadata(7, stored(&[2]))), 0);
    assert_eq!(state.device_prefix_blocks(worker, &hashes), 2);
    assert_eq!(state.report().final_l2_full_pages, 0);
    assert_eq!(state.apply_router_event(&event(7, removed(&[1, 2]))), 512);
    assert_eq!(state.device_prefix_blocks(worker, &hashes), 0);
    assert_eq!(state.l2_extension_blocks(worker, &hashes, 0), 2);
    let report = state.report();
    assert_eq!(report.d2h_tokens, 512);
    assert_eq!(report.total_host_io_tokens, 512);
    assert_eq!(report.h2d_tokens, 0);
    assert_eq!(
        report.l3.used_bytes,
        DSV4_FULL_BUNDLE_BYTES_PER_PAGE + DSV4_REGULAR_BYTES_PER_PAGE
    );
    let hits = state.shared_hits(&hashes);
    assert_eq!(hits.ranges, vec![HitRange { start: 0, end: 2 }]);
    assert_eq!(hits.total_hits, 2);
}

#[test]
fn metadata_removal_moves_the_device_boundary() {
    let mut state = SglangHiCacheState::new(config(SglangHiCacheWritePolicy::WriteBack, 1), 256);
    let worker = WorkerWithDpRank::new(7, 0);
    let hashes = [ExternalSequenceBlockHash(1), ExternalSequenceBlockHash(2)];
    state.apply_router_event(&event(7, stored(&[1, 2])));
    state.apply_router_event(&metadata(7, stored(&[1, 2])));
    assert_eq!(state.device_prefix_blocks(worker, &hashes), 2);
    assert_eq!(state.apply_router_event(&metadata(7, removed(&[2]))), 0);
    assert_eq!(state.device_prefix_blocks(worker, &hashes), 1);
    // A clear on the sideband means nothing, an ordinary one forgets the device.
    state.apply_router_event(&metadata(7, KvCacheEventData::Cleared));
    assert_eq!(state.device_prefix_blocks(worker, &hashes), 1);
    state.apply_router_event(&event(7, KvCacheEventData::Cleared));
    assert_eq!(state.device_prefix_blocks(worker, &hashes), 0);
}

#[test]
fn write_through_removal_causes_no_traffic() {
    let mut state = SglangHiCacheState::new(config(SglangHiCacheWritePolicy::WriteThrough, 1), 256);
    assert_eq!(state.apply_router_event(&event(7, stored(&[1]))), 256);
    assert_eq!(state.apply_router_event(&event(7, removed(&[1]))), 0);
    let report = state.report();
    assert_eq!(report.final_l2_full_pages, 1);
    assert_eq!(report.d2h_tokens, 256);
}

#[test]
fn resident_page_causes_no_new_traffic() {
    let mut state = SglangHiCacheState::new(config(SglangHiCacheWritePolicy::WriteThrough, 1), 256);
    assert_eq!(state.apply_router_event(&event(7, stored(&[1, 2]))), 512);
    assert_eq!(state.apply_router_event(&event(7, stored(&[1, 2]))), 0);
    assert_eq!(state.report().d2h_tokens, 512);
}

#[test]
fn events_of_lower_tiers_are_ignored() {
    let mut state = SglangHiCacheState::new(config(SglangHiCacheWritePolicy::WriteThrough, 1), 256);
    for storage_tier in [
        StorageTier::HostPinned,
        StorageTier::Disk,
        StorageTier::External,
    ] {
        let ignored = RouterEvent {
            storage_tier,
            ..event(7, stored(&[1]))
        };
        assert_eq!(state.apply_router_event(&ignored), 0);
    }
    let report = state.report();
    assert_eq!(report.workers_with_l2_state, 0);
    assert_eq!(report.d2h_tokens, 0);
    // The metadata sideband counts on every tier.
    let sideband = RouterEvent {
        storage_tier: StorageTier::Disk,
        ..metadata(7, stored(&[1]))
    };
    assert_eq!(state.apply_router_event(&sideband), 0);
    assert_eq!(state.report().workers_with_l2_state, 1);
}

#[test]
fn traffic_does_not_depend_on_the_shared_tier() {
    let mut with = SglangHiCacheState::new(config(SglangHiCacheWritePolicy::WriteThrough, 1), 256);
    let mut without =
        SglangHiCacheState::new(config(SglangHiCacheWritePolicy::WriteThrough, 0), 256);
    for hashes in [&[1, 2][..], &[2, 3], &[1], &[4, 1, 4]] {
        let tokens = with.apply_router_event(&event(7, stored(hashes)));
        assert_eq!(without.apply_router_event(&event(7, stored(hashes))), tokens);
        with.apply_router_event(&event(7, removed(hashes)));
        without.apply_router_event(&event(7, removed(hashes)));
    }
    assert_eq!(with.report().d2h_tokens, without.report().d2h_tokens);
    assert_eq!(without.report().l3.final_pages, 0);
    assert_eq!(
        without.shared_hits(&[ExternalSequenceBlockHash(1)]).total_hits,
        0
    );
}

#[test]
fn workers_are_independent_and_can_be_removed() {
    let mut state = SglangHiCacheState::new(config(SglangHiCacheWritePolicy::WriteThrough, 1), 256);
    let hash = [ExternalSequenceBlockHash(1)];
    state.apply_router_event(&event(7, stored(&[1])));
    state.apply_router_event(&event(8, stored(&[1])));
    assert_eq!(
        state.l2_extension_blocks(WorkerWithDpRank::new(7, 0), &hash, 0),
        1
    );
    assert_eq!(
        state.l2_extension_blocks(WorkerWithDpRank::new(7, 1), &hash, 0),
        0
    );
    assert_eq!(state.report().workers_with_l2_state, 2);
    state.remove_worker(7);
    assert_eq!(
        state.l2_extension_blocks(WorkerWithDpRank::new(7, 0), &hash, 0),
        0
    );
    assert_eq!(
        state.l2_extension_blocks(WorkerWithDpRank::new(8, 0), &hash, 0),
        1
    );
    let report = state.report();
    assert_eq!(report.workers_with_l2_state, 1);
    assert_eq!(report.final_l2_full_pages, 1);
    assert_eq!(report.l3.final_pages, 1);
}

#[test]
fn host_tiers_stay_within_capacity() {
    let mut state = SglangHiCacheState::new(config(SglangHiCacheWritePolicy::WriteBack, 1), 256);
    let worker = WorkerWithDpRank::new(7, 0);
    for hash in 1..=9 {
        state.backup(worker, ExternalSequenceBlockHash(hash), FULL);
        let report = state.report();
        assert!(report.final_l2_full_pages <= 2);
        assert!(report.final_l2_swa_pages <= 1);
    }
    assert_eq!(state.report().d2h_tokens, 0);
    assert_eq!(state.report().l3.final_pages, 9);
}

#[test]
fn traffic_is_at_most_one_page_for_each_block() {
    let mut state = SglangHiCacheState::new(config(SglangHiCacheWritePolicy::WriteThrough, 1), 256);
    // The device keeps the first two pages, so that the third finds no room.
    assert_eq!(state.apply_router_event(&event(7, stored(&[1, 2, 3]))), 512);
    assert_eq!(state.report().final_l2_full_pages, 2);
}

#[test]
fn report_shows_configuration_and_geometry() {
    let state = SglangHiCacheState::new(config(SglangHiCacheWritePolicy::WriteBack, 2), 256);
    let report = state.report();
    assert_eq!(report.geometry_id, "dsv4-flash-tp4-attn-cp4-fp32-v1");
    assert_eq!(report.write_policy, SglangHiCacheWritePolicy::WriteBack);
    assert_eq!(report.page_size_tokens, 256);
    assert_eq!(report.l1_swa_capacity_tokens_per_worker, 256);
    assert_eq!(report.l2_full_capacity_tokens_per_worker, 512);
    assert_eq!(report.l2_swa_capacity_tokens_per_worker, 256);
    assert_eq!(report.io_tokens_per_second, 160_000);
    assert_eq!(report.c4_bytes_per_page, 786_240);
    assert_eq!(report.c4_indexer_bytes_per_page, 177_408);
    assert_eq!(report.c128_bytes_per_page, 34_560);
    assert_eq!(report.swa_bytes_per_page, 6_439_680);
    assert_eq!(report.c4_state_bytes_per_page, 1_376_256);
    assert_eq!(report.c4_indexer_state_bytes_per_page, 344_064);
    assert_eq!(report.regular_bytes_per_page, 998_208);
    assert_eq!(report.trailing_bytes_per_page, 8_160_000);
    assert_eq!(report.full_bundle_bytes_per_page, 9_158_208);
    assert_eq!(report.l3.capacity_bytes, 2 << 30);
    assert_eq!(report.route_input_tokens, 0);
    assert_eq!(report.admission_reused_tokens, 0);
    assert_eq!(report, state.report());
}

#[test]
fn backup_of_a_regular_group_alone_is_no_hit() {
    let mut state = SglangHiCacheState::new(config(SglangHiCacheWritePolicy::WriteBack, 1), 256);
    let worker = WorkerWithDpRank::new(7, 0);
    let hash = ExternalSequenceBlockHash(11);
    assert_eq!(state.backup(worker, hash, REGULAR), 256);
    assert_eq!(state.shared_hits(&[hash]).total_hits, 0);
    assert!(state.shared_hits(&[hash]).ranges.is_empty());
    // The trailing group alone causes no traffic, and completes the page.
    let trailing = ComponentMask {
        regular: false,
        trailing: true,
    };
    assert_eq!(state.backup(worker, hash, trailing), 0);
    assert_eq!(state.shared_hits(&[hash]).total_hits, 1);
}

#[test]
fn repeated_event_causes_no_traffic_the_second_time() {
    for policy in [
        SglangHiCacheWritePolicy::WriteBack,
        SglangHiCacheWritePolicy::WriteThrough,
    ] {
        let mut state = SglangHiCacheState::new(config(policy, 1), 256);
        // More pages than the host tier holds, one of them twice.
        let pages = [1, 2, 3, 2];
        for data in [
            stored(&pages),
            removed(&pages),
            stored(&pages),
            KvCacheEventData::Cleared,
        ] {
            let event = event(7, data);
            state.apply_router_event(&event);
            assert_eq!(state.apply_router_event(&event), 0);
        }
        let sideband = metadata(7, stored(&pages));
        state.apply_router_event(&sideband);
        assert_eq!(state.apply_router_event(&sideband), 0);
    }
}

#[test]
fn removal_of_a_resident_page_causes_no_traffic() {
    let mut state = SglangHiCacheState::new(config(SglangHiCacheWritePolicy::WriteBack, 1), 256);
    let worker = WorkerWithDpRank::new(7, 0);
    state.apply_router_event(&event(7, stored(&[1, 2])));
    state.backup(worker, ExternalSequenceBlockHash(1), REGULAR);
    state.backup(worker, ExternalSequenceBlockHash(2), FULL);
    assert_eq!(state.apply_router_event(&event(7, removed(&[1, 2]))), 0);
    let report = state.report();
    assert_eq!(report.final_l2_full_pages, 2);
    assert!(report.final_l2_swa_pages <= report.final_l2_full_pages);
}

#[test]
fn prefetch_ends_where_the_host_can_serve() {
    let mut state = SglangHiCacheState::new(
        SglangHiCacheArgs {
            l2_full_capacity_tokens: 1024,
            ..config(SglangHiCacheWritePolicy::WriteBack, 1)
        },
        256,
    );
    let worker = WorkerWithDpRank::new(7, 0);
    let sequence = [
        ExternalSequenceBlockHash(1),
        ExternalSequenceBlockHash(2),
        ExternalSequenceBlockHash(3),
    ];
    assert!(state.l3_mut().put(sequence[0], REGULAR));
    assert!(state.l3_mut().put(sequence[1], FULL));
    assert!(state.l3_mut().put(sequence[2], REGULAR));
    let before = state.report().l3;
    assert_eq!(state.prefetch_selected_prefix(worker, &sequence, 0), 2);
    assert!(state.worker_mut(worker).has_regular(sequence[0]));
    assert!(state.worker_mut(worker).has_trailing(sequence[1]));
    assert!(!state.worker_mut(worker).has_regular(sequence[2]));
    // Only recency changed in the shared tier.
    assert_eq!(state.report().l3, before);
}

#[test]
fn selected_page_that_recurs_may_lose_its_trailing_group() {
    let mut state = SglangHiCacheState::new(config(SglangHiCacheWritePolicy::WriteBack, 1), 256);
    let worker = WorkerWithDpRank::new(7, 0);
    let first = ExternalSequenceBlockHash(1);
    let second = ExternalSequenceBlockHash(2);
    state.worker_mut(worker).insert(first, REGULAR);
    state.worker_mut(worker).insert(second, FULL);
    assert!(state.l3_mut().put(first, FULL));
    let sequence = [first, second, first];
    assert_eq!(state.prefetch_selected_prefix(worker, &sequence, 0), 2);
    assert!(!state.worker_mut(worker).has_trailing(second));
}
