use hicache_replay::geometry::{
    DSV4_FULL_BUNDLE_BYTES_PER_PAGE, DSV4_REGULAR_BYTES_PER_PAGE, DSV4_TRAILING_BYTES_PER_PAGE,
};

#[test]
fn dsv4_bundle_uses_six_source_qualified_objects() {
    assert_eq!(DSV4_REGULAR_BYTES_PER_PAGE, 998_208);
    assert_eq!(DSV4_TRAILING_BYTES_PER_PAGE, 8_160_000);
    assert_eq!(DSV4_FULL_BUNDLE_BYTES_PER_PAGE, 9_158_208);
}
