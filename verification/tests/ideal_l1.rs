use hicache_replay::ideal_l1::{
    DecodeStep, IdealL1Error, IdealL1RequestBound, IdealL1ZeroQueueTracker, IsolatedRun,
    PrefillChunk, ReplayRequestHashes, ReplayRequestPayload,
};
use hicache_replay::protocols::{MockEngineArgs, SglangArgs};
use hicache_replay::timestamp::Timestamp;

type Observed = Result<IdealL1RequestBound<f64>, IdealL1Error<String>>;

fn args() -> MockEngineArgs {
    MockEngineArgs {
        block_size: 256,
        num_gpu_blocks: 1024,
        max_num_batched_tokens: None,
        dp_size: 1,
        router_queue_policy: None,
        sglang: Some(SglangArgs {
            chunked_prefill_size: Some(512),
            hicache: None,
        }),
    }
}

/// Rolling hash of each complete block.
fn hash_tokens(tokens: &[u32], block_size: u32) -> ReplayRequestHashes {
    let mut sequence_hashes = Vec::new();
    let mut hash: u64 = 0xCBF2_9CE4_8422_2325;
    for block in tokens.chunks_exact(block_size as usize) {
        for token in block {
            hash = (hash ^ u64::from(*token)).wrapping_mul(0x0100_0000_01B3);
        }
        sequence_hashes.push(hash);
    }
    ReplayRequestHashes { sequence_hashes }
}

/// A millisecond for each token that is computed.
fn price(run: IsolatedRun) -> Result<f64, String> {
    let mut total = 0.0;
    for chunk in &run.prefill {
        total += (chunk.context_tokens - chunk.prefix_tokens) as f64;
    }
    if run.decode.is_some() {
        total += 1.0;
    }
    Ok(total)
}

fn observe(
    tracker: &mut IdealL1ZeroQueueTracker,
    request: &ReplayRequestPayload,
    hashes: Option<&ReplayRequestHashes>,
    arrival_time_ms: f64,
) -> Observed {
    let arrival = Timestamp::from_bits(arrival_time_ms.to_bits());
    tracker.observe(request, hashes, arrival, 1, hash_tokens, price)
}

#[test]
fn same_timestamp_does_not_observe_peer_history() {
    let mut tracker = IdealL1ZeroQueueTracker::from_args(&args());
    let tokens = (0..1024).collect::<Vec<u32>>();
    let hashes = hash_tokens(&tokens, 256);
    let first = ReplayRequestPayload::materialized(tokens);
    let first_bound = observe(&mut tracker, &first, Some(&hashes), 0.0).unwrap();
    let second_bound = observe(&mut tracker, &first, Some(&hashes), 0.0).unwrap();
    let later_bound = observe(&mut tracker, &first, Some(&hashes), 1.0).unwrap();

    assert_eq!(first_bound.reusable_tokens, 0);
    assert_eq!(second_bound.reusable_tokens, 0);
    assert_eq!(later_bound.reusable_tokens, 768);
    assert_eq!(later_bound.recomputed_tokens, 256);
}

#[test]
fn hashes_are_computed_where_the_trace_has_none() {
    let mut tracker = IdealL1ZeroQueueTracker::from_args(&args());
    let request = ReplayRequestPayload::materialized((0..600).collect());
    let first = observe(&mut tracker, &request, None, 0.0).unwrap();
    assert_eq!(first.reusable_tokens, 0);
    assert_eq!(first.ttft_ms, 601.0);
    let later = observe(&mut tracker, &request, None, 2.5).unwrap();
    assert_eq!(later.reusable_tokens, 512);
    assert_eq!(later.recomputed_tokens, 88);
    assert_eq!(later.ttft_ms, 89.0);
    // Without tokens there is nothing to hash.
    let unknown = ReplayRequestPayload {
        input_length: 600,
        tokens: None,
    };
    let bound = observe(&mut tracker, &unknown, None, 3.0).unwrap();
    assert_eq!(bound.reusable_tokens, 0);
    assert_eq!(bound.recomputed_tokens, 600);
}

#[test]
fn the_two_zeros_are_one_time() {
    let mut tracker = IdealL1ZeroQueueTracker::from_args(&args());
    let hashes = ReplayRequestHashes {
        sequence_hashes: vec![1, 2],
    };
    let request = ReplayRequestPayload {
        input_length: 1024,
        tokens: None,
    };
    for arrival in [-0.0, 0.0, -0.0] {
        let bound = observe(&mut tracker, &request, Some(&hashes), arrival).unwrap();
        assert_eq!(bound.reusable_tokens, 0);
    }
    let bound = observe(&mut tracker, &request, Some(&hashes), 5e-324).unwrap();
    assert_eq!(bound.reusable_tokens, 512);
}

#[test]
fn arrivals_must_be_finite_and_in_order() {
    let mut tracker = IdealL1ZeroQueueTracker::from_args(&args());
    let request = ReplayRequestPayload::materialized(vec![1, 2, 3]);
    for arrival in [f64::NAN, f64::INFINITY, f64::NEG_INFINITY] {
        assert_eq!(
            observe(&mut tracker, &request, None, arrival),
            Err(IdealL1Error::NonFiniteArrival)
        );
    }
    assert!(observe(&mut tracker, &request, None, -2.0).is_ok());
    assert!(observe(&mut tracker, &request, None, -1.5).is_ok());
    assert_eq!(
        observe(&mut tracker, &request, None, -1.75),
        Err(IdealL1Error::DecreasingArrival {
            arrival: Timestamp::from_bits((-1.75_f64).to_bits()),
            current: Timestamp::from_bits((-1.5_f64).to_bits()),
        })
    );
    assert!(observe(&mut tracker, &request, None, f64::MAX).is_ok());
}

#[test]
fn a_gap_ends_reuse() {
    let mut tracker = IdealL1ZeroQueueTracker::from_args(&args());
    let request = ReplayRequestPayload {
        input_length: 2048,
        tokens: None,
    };
    let known = ReplayRequestHashes {
        sequence_hashes: vec![1, 3],
    };
    let wanted = ReplayRequestHashes {
        sequence_hashes: vec![1, 2, 3],
    };
    observe(&mut tracker, &request, Some(&known), 0.0).unwrap();
    let bound = observe(&mut tracker, &request, Some(&wanted), 1.0).unwrap();
    assert_eq!(bound.reusable_tokens, 256);
}

#[test]
fn requests_without_a_price_leave_no_history() {
    let mut tracker = IdealL1ZeroQueueTracker::from_args(&args());
    let request = ReplayRequestPayload {
        input_length: 1024,
        tokens: None,
    };
    let hashes = ReplayRequestHashes {
        sequence_hashes: vec![1, 2, 3],
    };
    let failed: Observed = tracker.observe(
        &request,
        Some(&hashes),
        Timestamp::from_bits(0.0_f64.to_bits()),
        1,
        hash_tokens,
        |_run| Err("no model".to_string()),
    );
    assert_eq!(failed, Err(IdealL1Error::Prediction("no model".to_string())));
    let bound = observe(&mut tracker, &request, Some(&hashes), 1.0).unwrap();
    assert_eq!(bound.reusable_tokens, 0);
}

#[test]
fn oversized_blocks_cannot_be_hashed() {
    let mut tracker = IdealL1ZeroQueueTracker::from_args(&MockEngineArgs {
        block_size: 1 << 33,
        ..args()
    });
    let request = ReplayRequestPayload::materialized(vec![1, 2, 3]);
    assert_eq!(
        observe(&mut tracker, &request, None, 0.0),
        Err(IdealL1Error::BlockSizeTooLarge)
    );
    let hashes = ReplayRequestHashes {
        sequence_hashes: Vec::new(),
    };
    assert!(observe(&mut tracker, &request, Some(&hashes), 0.0).is_ok());
}

#[test]
fn runs_cover_the_input_in_chunks() {
    let tracker = IdealL1ZeroQueueTracker::from_args(&args());
    let run = tracker.isolated_run(1400, 1, 256);
    assert_eq!(
        run.prefill,
        vec![
            PrefillChunk {
                context_tokens: 768,
                prefix_tokens: 256,
            },
            PrefillChunk {
                context_tokens: 1280,
                prefix_tokens: 768,
            },
            PrefillChunk {
                context_tokens: 1400,
                prefix_tokens: 1280,
            },
        ]
    );
    assert_eq!(
        run.decode,
        Some(DecodeStep {
            context_tokens: 1400,
            total_kv_tokens: 262_144,
        })
    );
    let idle = tracker.isolated_run(0, 0, 0);
    assert!(idle.prefill.is_empty());
    assert_eq!(idle.decode, None);
}

#[test]
fn prefill_chunk_has_a_default_and_capacity_saturates() {
    let tracker = IdealL1ZeroQueueTracker::from_args(&MockEngineArgs {
        num_gpu_blocks: usize::MAX,
        sglang: None,
        ..args()
    });
    let run = tracker.isolated_run(10_000, 1, 0);
    assert_eq!(run.prefill.len(), 2);
    assert_eq!(run.prefill[0].context_tokens, 8192);
    assert_eq!(run.decode.unwrap().total_kv_tokens, usize::MAX);
}

#[test]
fn the_last_token_is_always_computed() {
    let mut tracker = IdealL1ZeroQueueTracker::from_args(&args());
    let request = ReplayRequestPayload {
        input_length: 512,
        tokens: None,
    };
    let hashes = ReplayRequestHashes {
        sequence_hashes: vec![1, 2],
    };
    observe(&mut tracker, &request, Some(&hashes), 0.0).unwrap();
    let bound = observe(&mut tracker, &request, Some(&hashes), 1.0).unwrap();
    assert_eq!(bound.reusable_tokens, 256);
    let empty = ReplayRequestPayload {
        input_length: 0,
        tokens: None,
    };
    let bound = observe(&mut tracker, &empty, Some(&hashes), 1.0).unwrap();
    assert_eq!(bound.reusable_tokens, 0);
    assert_eq!(bound.recomputed_tokens, 0);
}

#[test]
fn timestamps_order_as_doubles() {
    let values = [
        f64::MIN, -1e10, -1.0, -1e-300, -5e-324, -0.0, 0.0, 5e-324, 1.0, 1e10, f64::MAX,
    ];
    for a in values {
        for b in values {
            let before = Timestamp::from_bits(a.to_bits()).is_before(&Timestamp::from_bits(b.to_bits()));
            assert_eq!(before, a < b);
        }
        assert!(Timestamp::from_bits(a.to_bits()).is_finite());
    }
}
