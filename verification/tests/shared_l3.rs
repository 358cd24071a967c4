use hicache_replay::geometry::{
    ComponentMask, DSV4_FULL_BUNDLE_BYTES_PER_PAGE, DSV4_REGULAR_BYTES_PER_PAGE,
    DSV4_TRAILING_BYTES_PER_PAGE,
};
use hicache_replay::protocols::ExternalSequenceBlockHash;
use hicache_replay::shared_l3::{SglangL3Report, SharedL3};

#[test]
fn l3_evicts_all_components_of_one_logical_page() {
    let mut l3 = SharedL3::new(DSV4_FULL_BUNDLE_BYTES_PER_PAGE);
    let first = ExternalSequenceBlockHash(1);
    let second = ExternalSequenceBlockHash(2);
    assert!(l3.put(
        first,
        ComponentMask {
            regular: true,
            trailing: true,
        },
    ));
    assert!(l3.put(
        second,
        ComponentMask {
            regular: true,
            trailing: true,
        },
    ));
    assert!(!l3.contains_page(first));
    assert!(l3.contains_page(second));
    assert_eq!(l3.report().page_evictions, 1);
    assert_eq!(l3.report().used_bytes, DSV4_FULL_BUNDLE_BYTES_PER_PAGE);
}

#[test]
fn prefix_requires_regular_chain_and_trailing_boundary() {
    let mut l3 = SharedL3::new(DSV4_FULL_BUNDLE_BYTES_PER_PAGE * 3);
    let sequence = [
        ExternalSequenceBlockHash(1),
        ExternalSequenceBlockHash(2),
        ExternalSequenceBlockHash(3),
    ];
    for &hash in &sequence {
        assert!(l3.put(
            hash,
            ComponentMask {
                regular: true,
                trailing: false,
            },
        ));
    }
    assert_eq!(l3.prefix_blocks(&sequence), 0);
    assert!(l3.put(
        sequence[1],
        ComponentMask {
            regular: true,
            trailing: true,
        },
    ));
    assert_eq!(l3.prefix_blocks(&sequence), 2);
}

#[test]
fn deduplicated_put_does_not_refresh_lru() {
    let mut l3 = SharedL3::new(DSV4_FULL_BUNDLE_BYTES_PER_PAGE * 2);
    let first = ExternalSequenceBlockHash(1);
    let second = ExternalSequenceBlockHash(2);
    let third = ExternalSequenceBlockHash(3);
    let full = ComponentMask {
        regular: true,
        trailing: true,
    };
    assert!(l3.put(first, full));
    assert!(l3.put(second, full));
    assert!(l3.put(first, full));
    assert!(l3.put(third, full));
    assert!(!l3.contains_page(first));
    assert!(l3.contains_page(second));
    assert!(l3.contains_page(third));
}

#[test]
fn touched_pages_outlive_untouched_ones() {
    let mut l3 = SharedL3::new(DSV4_FULL_BUNDLE_BYTES_PER_PAGE * 2);
    let first = ExternalSequenceBlockHash(1);
    let second = ExternalSequenceBlockHash(2);
    let full = ComponentMask {
        regular: true,
        trailing: true,
    };
    assert!(l3.put(first, full));
    assert!(l3.put(second, full));
    l3.touch_prefix(&[first, second], 1);
    assert!(l3.put(ExternalSequenceBlockHash(3), full));
    assert!(l3.contains_page(first));
    assert!(!l3.contains_page(second));
    assert!(!l3.has_regular(second));
    assert!(!l3.has_trailing(second));
}

#[test]
fn rejected_put_is_only_counted() {
    let mut l3 = SharedL3::new(DSV4_REGULAR_BYTES_PER_PAGE);
    let hash = ExternalSequenceBlockHash(1);
    let regular = ComponentMask {
        regular: true,
        trailing: false,
    };
    assert!(l3.put(hash, regular));
    assert!(!l3.put(
        hash,
        ComponentMask {
            regular: false,
            trailing: true,
        },
    ));
    assert_eq!(l3.components(hash), regular);
    assert_eq!(
        l3.report(),
        SglangL3Report {
            capacity_bytes: DSV4_REGULAR_BYTES_PER_PAGE,
            used_bytes: DSV4_REGULAR_BYTES_PER_PAGE,
            peak_bytes: DSV4_REGULAR_BYTES_PER_PAGE,
            inserted_bytes: DSV4_REGULAR_BYTES_PER_PAGE,
            evicted_bytes: 0,
            rejected_bytes: DSV4_TRAILING_BYTES_PER_PAGE,
            page_evictions: 0,
            final_pages: 1,
            final_regular_pages: 1,
            final_trailing_pages: 0,
        }
    );
}

#[test]
fn completing_a_page_costs_the_missing_group_alone() {
    let mut l3 = SharedL3::new(DSV4_FULL_BUNDLE_BYTES_PER_PAGE * 2);
    let hash = ExternalSequenceBlockHash(1);
    assert!(l3.put(
        hash,
        ComponentMask {
            regular: true,
            trailing: false,
        },
    ));
    assert!(l3.put(
        hash,
        ComponentMask {
            regular: true,
            trailing: true,
        },
    ));
    let report = l3.report();
    assert_eq!(report.used_bytes, DSV4_FULL_BUNDLE_BYTES_PER_PAGE);
    assert_eq!(report.inserted_bytes, DSV4_FULL_BUNDLE_BYTES_PER_PAGE);
    assert_eq!(report.final_pages, 1);
    assert_eq!(report.final_trailing_pages, 1);
}

#[test]
fn eviction_frees_no_more_than_needed() {
    let mut l3 = SharedL3::new(DSV4_REGULAR_BYTES_PER_PAGE * 3);
    let regular = ComponentMask {
        regular: true,
        trailing: false,
    };
    for hash in 1..=5 {
        assert!(l3.put(ExternalSequenceBlockHash(hash), regular));
    }
    let report = l3.report();
    assert_eq!(report.page_evictions, 2);
    assert_eq!(report.evicted_bytes, DSV4_REGULAR_BYTES_PER_PAGE * 2);
    assert_eq!(report.final_pages, 3);
    assert!(l3.contains_page(ExternalSequenceBlockHash(3)));
    assert!(!l3.contains_page(ExternalSequenceBlockHash(2)));
    l3.evict(ExternalSequenceBlockHash(2));
    assert_eq!(l3.report(), report);
    l3.evict(ExternalSequenceBlockHash(3));
    assert_eq!(l3.report().used_bytes, DSV4_REGULAR_BYTES_PER_PAGE * 2);
}

#[test]
fn default_report_is_zero() {
    assert_eq!(SglangL3Report::default(), SharedL3::new(0).report());
}
