use hicache_replay::geometry::ComponentMask;
use hicache_replay::protocols::{
    ExternalSequenceBlockHash, SglangHiCacheArgs, SglangHiCacheStorageLayout,
    SglangHiCacheWritePolicy,
};
use hicache_replay::worker_l2::WorkerL2;

const FULL: ComponentMask = ComponentMask {
    regular: true,
    trailing: true,
};
const REGULAR: ComponentMask = ComponentMask {
    regular: true,
    trailing: false,
};
const TRAILING: ComponentMask = ComponentMask {
    regular: false,
    trailing: true,
};

fn tier(full_pages: usize, swa_pages: usize) -> WorkerL2 {
    let config = SglangHiCacheArgs {
        write_policy: SglangHiCacheWritePolicy::WriteBack,
        l1_swa_capacity_tokens: 256,
        l2_full_capacity_tokens: full_pages * 256,
        l2_swa_capacity_tokens: swa_pages * 256,
        l3_capacity_gib: 0,
        io_tokens_per_second: 1,
        storage_layout: SglangHiCacheStorageLayout::Dsv4FlashTp4AttnCp4Fp32,
    };
    WorkerL2::new(&config, 256)
}

fn hash(value: u64) -> ExternalSequenceBlockHash {
    ExternalSequenceBlockHash(value)
}

#[test]
fn least_recently_used_page_makes_room() {
    let mut l2 = tier(2, 2);
    assert!(l2.insert(hash(1), REGULAR).inserted_full);
    assert!(l2.insert(hash(2), REGULAR).inserted_full);
    l2.touch(hash(1));
    assert!(l2.insert(hash(3), REGULAR).inserted_full);
    assert!(l2.has_regular(hash(1)));
    assert!(!l2.has_regular(hash(2)));
    assert!(l2.has_regular(hash(3)));
    assert_eq!(l2.full_resident_pages(), 2);
}

#[test]
fn pages_on_the_device_are_not_evicted() {
    let mut l2 = tier(2, 2);
    l2.mark_device_stored(hash(1), REGULAR);
    l2.insert(hash(1), REGULAR);
    l2.insert(hash(2), REGULAR);
    l2.insert(hash(3), REGULAR);
    assert!(l2.has_regular(hash(1)));
    assert!(!l2.has_regular(hash(2)));
    l2.mark_device_stored(hash(3), REGULAR);
    let outcome = l2.insert(hash(4), FULL);
    assert!(!outcome.inserted_full);
    assert_eq!(outcome.stored, ComponentMask::default());
    assert!(!l2.has_trailing(hash(4)));
}

#[test]
fn trailing_group_needs_the_regular_group() {
    let mut l2 = tier(2, 2);
    assert_eq!(
        l2.insert(hash(1), TRAILING).stored,
        ComponentMask::default()
    );
    l2.insert(hash(1), REGULAR);
    let outcome = l2.insert(hash(1), TRAILING);
    assert_eq!(outcome.stored, FULL);
    assert!(!outcome.inserted_full);
}

#[test]
fn trailing_groups_have_their_own_budget() {
    let mut l2 = tier(3, 1);
    l2.insert(hash(1), FULL);
    l2.insert(hash(2), FULL);
    assert!(l2.has_regular(hash(1)));
    assert!(!l2.has_trailing(hash(1)));
    assert!(l2.has_trailing(hash(2)));
    assert_eq!(l2.full_resident_pages(), 2);
    assert_eq!(l2.swa_resident_pages(), 1);
    let mut none = tier(3, 0);
    assert_eq!(none.insert(hash(1), FULL).stored, REGULAR);
}

#[test]
fn host_prefix_ends_at_a_trailing_group() {
    let mut l2 = tier(4, 4);
    let sequence = [hash(1), hash(2), hash(3), hash(4)];
    l2.insert(hash(1), REGULAR);
    l2.insert(hash(2), FULL);
    l2.insert(hash(3), REGULAR);
    assert_eq!(l2.extension_blocks(&sequence, 0), 2);
    assert_eq!(l2.extension_blocks(&sequence, 1), 1);
    assert_eq!(l2.extension_blocks(&sequence, 2), 0);
    assert_eq!(l2.extension_blocks(&sequence, 9), 0);
    l2.remove_regular(hash(1));
    assert_eq!(l2.extension_blocks(&sequence, 0), 0);
    l2.remove_trailing(hash(2));
    assert_eq!(l2.extension_blocks(&sequence, 1), 0);
}

#[test]
fn device_prefix_ends_at_a_trailing_group() {
    let mut l2 = tier(1, 1);
    let sequence = [hash(1), hash(2), hash(3)];
    l2.mark_device_stored(hash(1), FULL);
    l2.mark_device_stored(hash(2), FULL);
    l2.mark_device_stored(hash(3), REGULAR);
    assert_eq!(l2.device_prefix_blocks(&sequence), 2);
    l2.mark_device_trailing_removed(hash(2));
    assert_eq!(l2.device_prefix_blocks(&sequence), 1);
    assert!(!l2.has_device_trailing(hash(2)));
    assert_eq!(l2.device_components(hash(2)), REGULAR);
    assert_eq!(l2.mark_device_removed(hash(1)), FULL);
    assert_eq!(l2.mark_device_removed(hash(1)), ComponentMask::default());
    assert_eq!(l2.device_prefix_blocks(&sequence), 0);
}

#[test]
fn device_reports_leave_the_host_alone() {
    let mut l2 = tier(2, 2);
    l2.insert(hash(1), FULL);
    l2.mark_device_stored(hash(1), REGULAR);
    l2.mark_device_stored(hash(2), FULL);
    l2.touch_device_boundary(hash(2));
    l2.clear_device();
    assert!(l2.has_regular(hash(1)));
    assert!(l2.has_trailing(hash(1)));
    assert!(!l2.has_regular(hash(2)));
    assert_eq!(l2.device_components(hash(1)), ComponentMask::default());
    assert_eq!(l2.full_resident_pages(), 1);
}

#[test]
fn masks_join_and_measure() {
    assert_eq!(REGULAR.union(TRAILING), FULL);
    assert_eq!(REGULAR.union(REGULAR), REGULAR);
    assert_eq!(ComponentMask::default().bytes(), 0);
    assert_eq!(REGULAR.bytes(), 998_208);
    assert_eq!(TRAILING.bytes(), 8_160_000);
    assert_eq!(FULL.bytes(), 9_158_208);
}

#[test]
fn least_recently_used_trailing_group_gives_way() {
    let mut l2 = tier(4, 2);
    l2.insert(hash(1), FULL);
    l2.insert(hash(2), FULL);
    l2.touch(hash(1));
    l2.insert(hash(3), FULL);
    assert!(l2.has_trailing(hash(1)));
    assert!(!l2.has_trailing(hash(2)));
    assert!(l2.has_regular(hash(2)));
    assert!(l2.has_trailing(hash(3)));
}

#[test]
fn offer_of_what_is_there_only_marks_it_used() {
    let mut l2 = tier(2, 2);
    l2.insert(hash(1), FULL);
    l2.insert(hash(2), FULL);
    assert!(!l2.insert(hash(1), REGULAR).inserted_full);
    l2.insert(hash(3), REGULAR);
    assert!(l2.has_regular(hash(1)));
    assert!(!l2.has_regular(hash(2)));
}

#[test]
fn tier_full_of_device_pages_takes_no_more() {
    let mut l2 = tier(1, 1);
    for value in 1..=3 {
        l2.mark_device_stored(hash(value), REGULAR);
        assert_eq!(l2.insert(hash(value), FULL).inserted_full, value == 1);
    }
    assert_eq!(l2.full_resident_pages(), 1);
    assert!(l2.has_regular(hash(1)));
    assert!(l2.has_trailing(hash(1)));
}
