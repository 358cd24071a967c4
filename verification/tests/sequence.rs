use hicache_replay::hicache::SglangHiCacheState;
use hicache_replay::protocols::{ExternalSequenceBlockHash, LocalBlockHash};

fn next_hash(parent: u64, local: LocalBlockHash) -> u64 {
    parent
        .wrapping_mul(0x9E37_79B9_7F4A_7C15)
        .rotate_left(23)
        .wrapping_add(local.0)
}

#[test]
fn sequence_hashes_match_sglang_event_chain() {
    let local = [LocalBlockHash(10), LocalBlockHash(20), LocalBlockHash(30)];
    let sequence = SglangHiCacheState::sequence_hashes(&local, next_hash);
    assert_eq!(sequence[0], ExternalSequenceBlockHash(10));
    assert_eq!(
        sequence[1],
        ExternalSequenceBlockHash(next_hash(10, local[1]))
    );
    assert_eq!(
        sequence[2],
        ExternalSequenceBlockHash(next_hash(sequence[1].0, local[2]))
    );
}

#[test]
fn chain_of_a_prefix_is_a_prefix_of_the_chain() {
    let local = [LocalBlockHash(1), LocalBlockHash(2), LocalBlockHash(3)];
    let whole = SglangHiCacheState::sequence_hashes(&local, next_hash);
    for blocks in 0..=3 {
        let part = SglangHiCacheState::sequence_hashes(&local[..blocks], next_hash);
        assert_eq!(part, whole[..blocks]);
    }
}
